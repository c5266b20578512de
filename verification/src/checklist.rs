//! The checklist: the records of the markers of all documents, and the
//! document that lists them.

use vstd::prelude::*;
use vstd::string::StringExecFns;
use crate::config::{ConfigEntry, ConfigValue, entry_views, all_valid, is_invalid, configured_title, title_key};
use crate::document::{Document, DocumentView};
use crate::error::{ChecklistError, ChecklistErrorView};
use crate::marker::{Marker, MarkerView, views};
use crate::render::{at_path, entry_line, entry_lines, found_at, group_heading, group_of, groups, opens_group, title_line, document_text};

verus! {

/// What a checklist holds: its title, and the records in the order in which
/// they were added.
pub struct ChecklistView {
    pub title: Seq<char>,
    pub markers: Seq<MarkerView>,
}

/// The title of a checklist whose options set none.
pub open spec fn default_title() -> Seq<char> {
    "Checklist"@
}

/// The path of the checklist document.
pub open spec fn checklist_path() -> Seq<char> {
    "checklist.md"@
}

/// The checklist of one pass over the documents.
#[derive(Debug)]
pub struct Checklist {
    title: String,
    markers: Vec<Marker>,
}

impl View for Checklist {
    type V = ChecklistView;

    closed spec fn view(&self) -> ChecklistView {
        ChecklistView { title: self.title@, markers: views(self.markers@) }
    }
}

impl Checklist {
    /// A checklist without records, under the default title.
    pub fn new() -> (checklist: Checklist)
        ensures
            checklist@ == (ChecklistView { title: default_title(), markers: Seq::empty() }),
    {
        let checklist = Checklist { title: "Checklist".to_owned(), markers: Vec::new() };
        assert(views(checklist.markers@) =~= Seq::empty());
        checklist
    }

    /// Reads the options. Where none of them is invalid, the last option
    /// that sets the title gives the checklist its title. Where one is
    /// invalid, the checklist stays as it was.
    pub fn update_config(&mut self, config: &Vec<ConfigEntry>) -> (result: Result<
        (),
        ChecklistError,
    >)
        ensures
            match result {
                Ok(_) => {
                    &&& all_valid(entry_views(config@))
                    &&& final(self)@ == (ChecklistView {
                        title: configured_title(entry_views(config@), old(self)@.title),
                        markers: old(self)@.markers,
                    })
                },
                Err(e) => {
                    &&& !all_valid(entry_views(config@))
                    &&& final(self)@ == old(self)@
                    &&& e@ == (ChecklistErrorView::InvalidOption { key: title_key() })
                },
            },
    {
        let ghost entries = entry_views(config@);
        let mut chosen: Option<usize> = None;
        let mut k: usize = 0;
        while k < config.len()
            invariant
                k <= config.len(),
                entries == entry_views(config@),
                all_valid(entries.take(k as int)),
                match chosen {
                    Some(c) => {
                        &&& c < k
                        &&& config[c as int]@.value is Text
                        &&& configured_title(entries.take(k as int), old(self)@.title)
                            == config[c as int]@.value->Text_0
                    },
                    None => configured_title(entries.take(k as int), old(self)@.title) == old(
                        self,
                    )@.title,
                },
            decreases config.len() - k,
        {
            let entry = &config[k];
            proof {
                assert(entries[k as int] == entry@);
                assert(entries.take(k as int + 1).drop_last() == entries.take(k as int));
                assert(entries.take(k as int + 1).last() == entry@);
            }
            if is_title_key(entry.key.as_str()) {
                match &entry.value {
                    ConfigValue::Text(_) => {
                        chosen = Some(k);
                    },
                    _ => {
                        assert(is_invalid(entries[k as int]));
                        return Err(ChecklistError::InvalidOption { key: "title".to_owned() });
                    },
                }
            }
            assert forall|j: int| 0 <= j < k + 1 implies !is_invalid(
                #[trigger] entries.take(k as int + 1)[j],
            ) by {
                if j < k {
                    assert(entries.take(k as int)[j] == entries.take(k as int + 1)[j]);
                }
            }
            k += 1;
        }
        assert(entries.take(k as int) == entries);
        match chosen {
            Some(c) => {
                match &config[c].value {
                    ConfigValue::Text(text) => {
                        self.title = text.clone();
                    },
                    _ => {},
                }
            },
            None => {},
        }
        Ok(())
    }

    /// Adds the record of a marker `name` with `description`, found in the
    /// document `document_title` at `document_path`, behind the records
    /// that are there. Nothing is left out: a name that occurs again is
    /// added again.
    pub fn insert(
        &mut self,
        document_title: &str,
        document_path: &str,
        name: String,
        description: String,
    )
        ensures
            final(self)@ == (ChecklistView {
                title: old(self)@.title,
                markers: old(self)@.markers.push(
                    MarkerView {
                        name: name@,
                        description: description@,
                        source_title: document_title@,
                        source_path: document_path@,
                    },
                ),
            }),
    {
        let marker = Marker::new(
            name,
            description,
            document_title.to_owned(),
            document_path.to_owned(),
        );
        self.markers.push(marker);
        assert(views(self.markers@) =~= views(old(self).markers@).push(marker@));
    }

    /// The document that lists the records: under the title of the
    /// checklist one group for each path, in the order in which the paths
    /// first occur, and in each group the records of that path in the order
    /// in which they were added.
    pub fn generate_document(&self) -> (document: Document)
        ensures
            document@ == (DocumentView {
                title: self@.title,
                path: Some(checklist_path()),
                content: document_text(self@.title, self@.markers),
            }),
    {
        let ghost ms = views(self.markers@);
        let n = self.markers.len();
        let mut text = "# ".to_owned();
        text.append(self.title.as_str());
        text.append("\n\n");
        let mut i: usize = 0;
        while i < n
            invariant
                i <= n,
                n == self.markers.len(),
                ms == views(self.markers@),
                text@ == title_line(self.title@) + groups(ms, i as int),
            decreases n - i,
        {
            if self.is_first_of_source(i) {
                self.write_group(&mut text, i);
            }
            i += 1;
        }
        Document { title: self.title.clone(), path: Some("checklist.md".to_owned()), content: text }
    }

    /// Tells whether no record in front of the one at `i` has its path.
    fn is_first_of_source(&self, i: usize) -> (b: bool)
        requires
            i < self.markers.len(),
        ensures
            b == opens_group(views(self.markers@), i as int),
    {
        let ghost ms = views(self.markers@);
        let mut j: usize = 0;
        while j < i
            invariant
                j <= i < self.markers.len(),
                ms == views(self.markers@),
                forall|k: int| 0 <= k < j ==> (#[trigger] ms[k]).source_path != ms[i as int].source_path,
            decreases i - j,
        {
            if self.markers[j].same_source(&self.markers[i]) {
                assert(ms[j as int].source_path == ms[i as int].source_path);
                return false;
            }
            j += 1;
        }
        true
    }

    /// Appends to `text` the group of the path of the record at `i`.
    fn write_group(&self, text: &mut String, i: usize)
        requires
            i < self.markers.len(),
        ensures
            final(text)@ == old(text)@ + group_of(views(self.markers@), i as int),
    {
        let ghost ms = views(self.markers@);
        let ghost path = ms[i as int].source_path;
        let first = &self.markers[i];
        text.append("## [");
        text.append(first.source_title());
        text.append("](");
        text.append(first.source_path());
        text.append(")\n\n");
        assert(text@ == old(text)@ + group_heading(ms[i as int]));
        let mut k: usize = 0;
        while k < self.markers.len()
            invariant
                k <= self.markers.len(),
                i < self.markers.len(),
                ms == views(self.markers@),
                path == ms[i as int].source_path,
                first == &self.markers[i as int],
                text@ == old(text)@ + group_heading(ms[i as int]) + entry_lines(
                    found_at(ms.take(k as int), path),
                ),
            decreases self.markers.len() - k,
        {
            let marker = &self.markers[k];
            proof {
                let done = ms.take(k as int);
                let next = ms.take(k as int + 1);
                assert(next == done.push(marker@));
                done.lemma_filter_push(marker@, at_path(path));
                if marker@.source_path == path {
                    assert(found_at(next, path).drop_last() == found_at(done, path));
                }
            }
            if marker.same_source(first) {
                write_entry(text, marker);
            }
            k += 1;
        }
        assert(ms.take(k as int) == ms);
        text.append("\n");
    }

    /// The title of the checklist.
    pub fn title(&self) -> (title: &str)
        ensures
            title@ == self@.title,
    {
        self.title.as_str()
    }

    /// The records, in the order in which they were added.
    pub fn markers(&self) -> (markers: &Vec<Marker>)
        ensures
            views(markers@) == self@.markers,
    {
        &self.markers
    }
}

/// Appends to `text` the line that lists `marker`.
fn write_entry(text: &mut String, marker: &Marker)
    ensures
        final(text)@ == old(text)@ + entry_line(marker@),
{
    text.append("- [");
    text.append(marker.name());
    text.append("](");
    text.append(marker.source_path());
    text.append("#");
    text.append(marker.name());
    text.append("): ");
    text.append(marker.description());
    text.append("\n");
}

/// Tells whether `key` is the key of the option that sets the title.
fn is_title_key(key: &str) -> (b: bool)
    ensures
        b == (key@ == title_key()),
{
    key.to_owned() == "title".to_owned()
}

} // verus!
