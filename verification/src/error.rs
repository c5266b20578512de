//! The errors that end a pass.

use vstd::prelude::*;
use vstd::string::StringExecFns;

verus! {

/// What an error holds, as sequences of characters.
pub enum ChecklistErrorView {
    InvalidOption { key: Seq<char> },
    MissingPath { title: Seq<char> },
}

impl ChecklistErrorView {
    /// The text that describes the error.
    pub open spec fn message(self) -> Seq<char> {
        match self {
            ChecklistErrorView::InvalidOption { key } => "the option `"@ + key
                + "` holds a value of the wrong type"@,
            ChecklistErrorView::MissingPath { title } => "the document `"@ + title
                + "` holds checklist markers but has no path"@,
        }
    }
}

/// Why a pass over the documents failed.
#[derive(Clone, Debug, PartialEq, Eq)]
pub enum ChecklistError {
    /// The option `key` is one that the checklist reads, and its value is
    /// of another type than the option takes.
    InvalidOption { key: String },
    /// The document `title` holds markers and has no path, so that no link
    /// could lead to them.
    MissingPath { title: String },
}

impl View for ChecklistError {
    type V = ChecklistErrorView;

    open spec fn view(&self) -> ChecklistErrorView {
        match self {
            ChecklistError::InvalidOption { key } => ChecklistErrorView::InvalidOption { key: key@ },
            ChecklistError::MissingPath { title } => ChecklistErrorView::MissingPath { title: title@ },
        }
    }
}

impl ChecklistError {
    /// A text that describes the error.
    pub fn message(&self) -> (text: String)
        ensures
            text@ == self@.message(),
    {
        match self {
            ChecklistError::InvalidOption { key } => {
                let mut text = "the option `".to_owned();
                text.append(key.as_str());
                text.append("` holds a value of the wrong type");
                text
            },
            ChecklistError::MissingPath { title } => {
                let mut text = "the document `".to_owned();
                text.append(title.as_str());
                text.append("` holds checklist markers but has no path");
                text
            },
        }
    }
}

} // verus!
