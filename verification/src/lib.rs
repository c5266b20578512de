//! Checklist markers for documentation sources.
//!
//! A marker is written inline as `{{#check name | description}}`. The library
//! finds every marker of a document, replaces it by an anchor followed by the
//! marker's name, and collects the markers of all documents into one summary
//! document whose entries link back to those anchors.

pub mod chars;
pub mod checklist;
pub mod checklist_pre;
pub mod config;
pub mod document;
pub mod error;
pub mod grammar;
pub mod marker;
pub mod pass;
pub mod render;
pub mod scan;
pub mod scanner;
pub mod text;
