//! The pass over the documents of a book: collects the markers
//! `{{#check <name> | <description>}}` and adds the checklist document.

use vstd::prelude::*;
use crate::checklist::{Checklist, ChecklistView, default_title};
use crate::config::{ConfigEntry, all_valid, configured_title, entry_views, title_key};
use crate::document::{document_views, Document};
use crate::error::{ChecklistError, ChecklistErrorView};
use crate::marker::views;
use crate::pass::{collected, document_records, is_first_lacking, lacks_path, pass_output, rewritten_document};
use crate::scan::{rewritten, scan};
use crate::scanner::{find_markers, scan_and_rewrite, spans_of};
use crate::text::chars_of;

verus! {

/// The name under which the host knows the pass, and under which it keeps
/// the options of the pass.
pub open spec fn pass_name() -> Seq<char> {
    "checklist-preprocessor"@
}

/// The pass that collects the markers of all documents and adds the
/// checklist document.
#[derive(Clone, Copy, Debug, Default)]
pub struct ChecklistPre;

impl ChecklistPre {
    /// The name of the pass.
    pub fn name(&self) -> (name: &'static str)
        ensures
            name@ == pass_name(),
    {
        "checklist-preprocessor"
    }

    /// Runs the pass over `documents` with the options `config`.
    ///
    /// Where no option is invalid and every document that holds markers has
    /// a path, the documents come back in their order, each with its
    /// markers replaced, and behind them the checklist document that lists
    /// the markers of all of them. Else the pass fails: on an invalid
    /// option, or else on the first document that holds markers and has no
    /// path.
    pub fn run(&self, config: &Vec<ConfigEntry>, documents: Vec<Document>) -> (result: Result<
        Vec<Document>,
        ChecklistError,
    >)
        ensures
            match result {
                Ok(out) => {
                    &&& all_valid(entry_views(config@))
                    &&& forall|i: int|
                        0 <= i < documents.len() ==> !lacks_path(#[trigger] documents[i]@)
                    &&& document_views(out@) == pass_output(
                        configured_title(entry_views(config@), default_title()),
                        document_views(documents@),
                    )
                },
                Err(e) => match e@ {
                    ChecklistErrorView::InvalidOption { key } => {
                        &&& !all_valid(entry_views(config@))
                        &&& key == title_key()
                    },
                    ChecklistErrorView::MissingPath { title } => {
                        &&& all_valid(entry_views(config@))
                        &&& exists|i: int| #[trigger]
                            is_first_lacking(document_views(documents@), i) && title
                                == documents[i]@.title
                    },
                },
            },
    {
        let ghost docs = document_views(documents@);
        let ghost title = configured_title(entry_views(config@), default_title());
        let mut checklist = Checklist::new();
        match checklist.update_config(config) {
            Err(e) => {
                return Err(e);
            },
            Ok(_) => {},
        }
        let mut out: Vec<Document> = Vec::new();
        let mut i: usize = 0;
        assert(collected(docs.take(0)) =~= Seq::empty());
        while i < documents.len()
            invariant
                i <= documents.len(),
                docs == document_views(documents@),
                all_valid(entry_views(config@)),
                forall|j: int| 0 <= j < i ==> !lacks_path(#[trigger] documents[j]@),
                out.len() == i,
                forall|j: int| 0 <= j < i ==> (#[trigger] out[j])@ == rewritten_document(documents[j]@),
                checklist@ == (ChecklistView { title, markers: collected(docs.take(i as int)) }),
            decreases documents.len() - i,
        {
            let document = &documents[i];
            proof {
                assert(docs[i as int] == document@);
                assert(docs.take(i as int + 1).drop_last() == docs.take(i as int));
                assert(docs.take(i as int + 1).last() == document@);
            }
            match collect_and_replace(document, &mut checklist) {
                Ok(content) => {
                    let path = match &document.path {
                        Some(p) => Some(p.clone()),
                        None => None,
                    };
                    out.push(Document { title: document.title.clone(), path, content });
                },
                Err(e) => {
                    assert(is_first_lacking(docs, i as int)) by {
                        assert forall|j: int| 0 <= j < i implies !lacks_path(#[trigger] docs[j]) by {
                            assert(docs[j] == documents[j]@);
                        }
                    }
                    return Err(e);
                },
            }
            i += 1;
        }
        proof {
            assert(docs.take(i as int) == docs);
        }
        out.push(checklist.generate_document());
        assert(document_views(out@) =~= pass_output(title, docs));
        Ok(out)
    }
}

/// Adds the records of the markers of `document` to `checklist` and returns
/// the text of the document with its markers replaced. Fails, and leaves
/// the checklist as it was, where the document holds markers and has no
/// path.
pub fn collect_and_replace(document: &Document, checklist: &mut Checklist) -> (result: Result<
    String,
    ChecklistError,
>)
    ensures
        match result {
            Ok(content) => {
                &&& !lacks_path(document@)
                &&& content@ == rewritten(document@.content)
                &&& final(checklist)@ == (ChecklistView {
                    title: old(checklist)@.title,
                    markers: old(checklist)@.markers + document_records(document@),
                })
            },
            Err(e) => {
                &&& lacks_path(document@)
                &&& final(checklist)@ == old(checklist)@
                &&& e@ == (ChecklistErrorView::MissingPath { title: document@.title })
            },
        },
{
    match &document.path {
        Some(path) => {
            let (content, markers) = scan_and_rewrite(
                document.title.as_str(),
                path.as_str(),
                document.content.as_str(),
            );
            let mut k: usize = 0;
            assert(views(markers@).take(0) =~= Seq::empty());
            while k < markers.len()
                invariant
                    k <= markers.len(),
                    checklist@ == (ChecklistView {
                        title: old(checklist)@.title,
                        markers: old(checklist)@.markers + views(markers@).take(k as int),
                    }),
                decreases markers.len() - k,
            {
                let marker = &markers[k];
                proof {
                    assert(views(markers@).take(k as int + 1) == views(markers@).take(k as int).push(
                        marker@,
                    ));
                }
                checklist.insert(
                    marker.source_title(),
                    marker.source_path(),
                    marker.name().to_owned(),
                    marker.description().to_owned(),
                );
                k += 1;
            }
            assert(views(markers@).take(k as int) == views(markers@));
            Ok(content)
        },
        None => {
            let chars = chars_of(document.content.as_str());
            let found = find_markers(&chars);
            if found.len() > 0 {
                assert(spans_of(found@).len() == found.len());
                Err(ChecklistError::MissingPath { title: document.title.clone() })
            } else {
                assert(spans_of(found@).len() == found.len());
                assert(rewritten(document@.content) == document@.content);
                Ok(document.content.clone())
            }
        },
    }
}

} // verus!
