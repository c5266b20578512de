//! The record of one marker.

use vstd::prelude::*;
use crate::chars::is_name_char;

verus! {

/// What a marker record holds, as sequences of characters.
pub struct MarkerView {
    pub name: Seq<char>,
    pub description: Seq<char>,
    pub source_title: Seq<char>,
    pub source_path: Seq<char>,
}

impl MarkerView {
    /// What holds of every record that comes out of a document: the name is
    /// made of one or more name characters, and the description of one or
    /// more characters other than `}`.
    pub open spec fn well_formed(self) -> bool {
        &&& self.name.len() > 0
        &&& forall|k: int| 0 <= k < self.name.len() ==> is_name_char(#[trigger] self.name[k])
        &&& self.description.len() > 0
        &&& forall|k: int| 0 <= k < self.description.len() ==> #[trigger] self.description[k] != '}'
    }
}

/// One marker that was found in a document: its name and description, and
/// the title and path of the document. A record is not changed once made.
#[derive(Clone, Debug, PartialEq, Eq)]
pub struct Marker {
    name: String,
    description: String,
    source_title: String,
    source_path: String,
}

impl View for Marker {
    type V = MarkerView;

    closed spec fn view(&self) -> MarkerView {
        MarkerView {
            name: self.name@,
            description: self.description@,
            source_title: self.source_title@,
            source_path: self.source_path@,
        }
    }
}

impl Marker {
    /// Makes the record of a marker `name` with `description`, found in the
    /// document `source_title` at `source_path`.
    pub fn new(name: String, description: String, source_title: String, source_path: String) -> (m:
        Marker)
        ensures
            m@ == (MarkerView {
                name: name@,
                description: description@,
                source_title: source_title@,
                source_path: source_path@,
            }),
    {
        Marker { name, description, source_title, source_path }
    }

    /// The marker's name.
    pub fn name(&self) -> (s: &str)
        ensures
            s@ == self@.name,
    {
        self.name.as_str()
    }

    /// The marker's description.
    pub fn description(&self) -> (s: &str)
        ensures
            s@ == self@.description,
    {
        self.description.as_str()
    }

    /// The title of the document that the marker was found in.
    pub fn source_title(&self) -> (s: &str)
        ensures
            s@ == self@.source_title,
    {
        self.source_title.as_str()
    }

    /// The path of the document that the marker was found in.
    pub fn source_path(&self) -> (s: &str)
        ensures
            s@ == self@.source_path,
    {
        self.source_path.as_str()
    }

    /// Tells whether `other` was found in a document with the same path.
    pub fn same_source(&self, other: &Marker) -> (b: bool)
        ensures
            b == (self@.source_path == other@.source_path),
    {
        self.source_path == other.source_path
    }
}

/// The views of a sequence of records.
pub open spec fn views(markers: Seq<Marker>) -> Seq<MarkerView> {
    markers.map_values(|m: Marker| m@)
}

} // verus!
