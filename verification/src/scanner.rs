//! The scanner: finds the markers of a document and rewrites its text.

use vstd::prelude::*;
use vstd::string::StringExecFns;
use crate::chars::CharClass;
use crate::grammar::{is_marker, lemma_match_is_marker, match_at, run_end, MarkerSpan};
use crate::marker::{Marker, views};
use crate::scan::{in_order, lemma_no_markers_unchanged, lemma_record_well_formed, lemma_scan_sound, record, records, rewrite_with, rewritten, scan, scan_from, substitution};
use crate::text::{chars_of, push_range, string_of};

verus! {

/// Where a marker was found in a text. Every field is a position counted in
/// characters from the start of the text.
#[derive(Clone, Copy, Debug, PartialEq, Eq)]
pub struct MarkerMatch {
    /// The first `{` of the opening braces.
    pub start: usize,
    /// The `#` of the tag.
    pub tag: usize,
    /// The first character of the name.
    pub name_start: usize,
    /// The position after the last character of the name.
    pub name_end: usize,
    /// The `|`.
    pub pipe: usize,
    /// The first character of the description.
    pub desc_start: usize,
    /// The position after the last character of the description.
    pub desc_end: usize,
}

impl View for MarkerMatch {
    type V = MarkerSpan;

    open spec fn view(&self) -> MarkerSpan {
        MarkerSpan {
            start: self.start as int,
            tag: self.tag as int,
            name_start: self.name_start as int,
            name_end: self.name_end as int,
            pipe: self.pipe as int,
            desc_start: self.desc_start as int,
            desc_end: self.desc_end as int,
        }
    }
}

/// The spans of a sequence of matches.
pub open spec fn spans_of(found: Seq<MarkerMatch>) -> Seq<MarkerSpan> {
    found.map_values(|m: MarkerMatch| m@)
}

/// The end of the run of characters of `class` that starts at `i`.
fn skip(v: &Vec<char>, i: usize, class: CharClass) -> (j: usize)
    requires
        i <= v.len(),
    ensures
        j == run_end(v@, i as int, class),
        i <= j <= v.len(),
{
    let mut j: usize = i;
    while j < v.len() && class.contains(v[j])
        invariant
            i <= j <= v.len(),
            run_end(v@, i as int, class) == run_end(v@, j as int, class),
        decreases v.len() - j,
    {
        j += 1;
    }
    j
}

/// The marker that starts at position `i` of `v`, if one does.
pub fn match_marker_at(v: &Vec<char>, i: usize) -> (found: Option<MarkerMatch>)
    ensures
        match found {
            Some(m) => match_at(v@, i as int) == Some(m@),
            None => match_at(v@, i as int) is None,
        },
{
    let n = v.len();
    if i >= n || n - i < 2 || v[i] != '{' || v[i + 1] != '{' {
        return None;
    }
    let tag = skip(v, i + 2, CharClass::Space);
    if n - tag < 6 || v[tag] != '#' || v[tag + 1] != 'c' || v[tag + 2] != 'h' || v[tag + 3] != 'e'
        || v[tag + 4] != 'c' || v[tag + 5] != 'k' {
        return None;
    }
    let name_start = skip(v, tag + 6, CharClass::Space);
    if name_start == tag + 6 {
        return None;
    }
    let name_end = skip(v, name_start, CharClass::Name);
    if name_end == name_start {
        return None;
    }
    let pipe = skip(v, name_end, CharClass::Space);
    if pipe >= n || v[pipe] != '|' {
        return None;
    }
    let lead = skip(v, pipe + 1, CharClass::Space);
    let desc_end = skip(v, pipe + 1, CharClass::Text);
    if desc_end == pipe + 1 || n - desc_end < 2 || v[desc_end] != '}' || v[desc_end + 1] != '}' {
        return None;
    }
    let desc_start = if lead < desc_end {
        lead
    } else {
        desc_end - 1
    };
    Some(MarkerMatch { start: i, tag, name_start, name_end, pipe, desc_start, desc_end })
}

/// The markers of the text `v`, from left to right.
pub fn find_markers(v: &Vec<char>) -> (found: Vec<MarkerMatch>)
    ensures
        spans_of(found@) == scan(v@),
{
    let mut found: Vec<MarkerMatch> = Vec::new();
    let mut i: usize = 0;
    while i < v.len()
        invariant
            i <= v.len(),
            spans_of(found@) + scan_from(v@, i as int) == scan(v@),
        decreases v.len() - i,
    {
        match match_marker_at(v, i) {
            Some(m) => {
                proof {
                    lemma_match_is_marker(v@, i as int);
                    assert(spans_of(found@.push(m)) + scan_from(v@, m@.end()) == spans_of(found@) + (
                    seq![m@] + scan_from(v@, m@.end())));
                }
                found.push(m);
                i = m.desc_end + 2;
            },
            None => {
                i += 1;
            },
        }
    }
    found
}

/// The text `v` with each marker of `found` replaced by its substitution.
fn rewrite(v: &Vec<char>, found: &Vec<MarkerMatch>) -> (out: String)
    requires
        spans_of(found@) == scan(v@),
    ensures
        out@ == rewritten(v@),
{
    let ghost spans = spans_of(found@);
    let mut out = String::new();
    let mut prev: usize = 0;
    let mut k: usize = 0;
    proof {
        lemma_scan_sound(v@, 0);
        assert(spans.skip(0) == spans);
    }
    while k < found.len()
        invariant
            k <= found.len(),
            spans == spans_of(found@),
            spans == scan(v@),
            forall|j: int| 0 <= j < spans.len() ==> is_marker(v@, #[trigger] spans[j]),
            in_order(v@, spans, 0),
            prev <= v.len(),
            k < found.len() ==> prev <= found[k as int].start,
            out@ + rewrite_with(v@, spans.skip(k as int), prev as int) == rewritten(v@),
        decreases found.len() - k,
    {
        let m = found[k];
        proof {
            assert(spans[k as int] == m@);
            assert(is_marker(v@, m@));
            assert(spans.skip(k as int)[0] == m@);
            assert(spans.skip(k as int).drop_first() == spans.skip(k as int + 1));
            if k + 1 < found.len() {
                assert(spans[k as int + 1] == found[k as int + 1]@);
                assert(spans[k as int].end() <= spans[k as int + 1].start);
            }
        }
        let ghost before = out@;
        push_range(&mut out, v, prev, m.start);
        out.append("<a id=\"");
        push_range(&mut out, v, m.name_start, m.name_end);
        out.append("\"></a>");
        push_range(&mut out, v, m.name_start, m.name_end);
        proof {
            assert(out@ == before + (v@.subrange(prev as int, m@.start) + substitution(m@.name(v@))));
        }
        prev = m.desc_end + 2;
        k += 1;
    }
    proof {
        assert(spans.skip(k as int).len() == 0);
    }
    push_range(&mut out, v, prev, v.len());
    out
}

/// The records of the markers `found` in the text `v` of a document with
/// the given title and path.
fn make_records(title: &str, path: &str, v: &Vec<char>, found: &Vec<MarkerMatch>) -> (markers: Vec<
    Marker,
>)
    requires
        forall|j: int| 0 <= j < found.len() ==> is_marker(v@, #[trigger] found[j]@),
    ensures
        views(markers@) == records(title@, path@, v@, spans_of(found@)),
{
    let mut markers: Vec<Marker> = Vec::new();
    let mut k: usize = 0;
    while k < found.len()
        invariant
            k <= found.len(),
            forall|j: int| 0 <= j < found.len() ==> is_marker(v@, #[trigger] found[j]@),
            markers.len() == k,
            forall|j: int| 0 <= j < k ==> (#[trigger] markers[j])@ == record(title@, path@, v@, found[j]@),
        decreases found.len() - k,
    {
        let m = found[k];
        assert(is_marker(v@, m@));
        let name = string_of(v, m.name_start, m.name_end);
        let description = string_of(v, m.desc_start, m.desc_end);
        markers.push(Marker::new(name, description, title.to_owned(), path.to_owned()));
        k += 1;
    }
    assert(views(markers@) =~= records(title@, path@, v@, spans_of(found@)));
    markers
}

/// Scans the text `content` of a document for markers. Returns the text with
/// each marker replaced by an anchor and the marker's name, and the records
/// of the markers in the order in which they stand in the text.
pub fn scan_and_rewrite(document_title: &str, document_path: &str, content: &str) -> (out: (
    String,
    Vec<Marker>,
))
    ensures
        out.0@ == rewritten(content@),
        views(out.1@) == records(document_title@, document_path@, content@, scan(content@)),
        out.1.len() == scan(content@).len(),
        scan(content@).len() == 0 ==> out.0@ == content@,
        forall|k: int| 0 <= k < out.1.len() ==> (#[trigger] out.1[k])@.well_formed(),
{
    let v = chars_of(content);
    let found = find_markers(&v);
    proof {
        lemma_scan_sound(v@, 0);
        assert forall|j: int| 0 <= j < found.len() implies is_marker(v@, #[trigger] found[j]@) by {
            assert(spans_of(found@)[j] == found[j]@);
        }
    }
    let text = rewrite(&v, &found);
    let markers = make_records(document_title, document_path, &v, &found);
    proof {
        assert(views(markers@).len() == markers.len());
        if scan(content@).len() == 0 {
            lemma_no_markers_unchanged(document_title@, document_path@, content@);
        }
        assert forall|k: int| 0 <= k < markers.len() implies (#[trigger] markers[k])@.well_formed() by {
            assert(views(markers@)[k] == markers[k]@);
            lemma_record_well_formed(document_title@, document_path@, content@, scan(content@)[k]);
        }
    }
    (text, markers)
}

} // verus!
