//! What scanning a text yields: the markers found, the rewritten text and
//! the records, each as a function of the text.

use vstd::prelude::*;
use crate::grammar::{has_open, is_marker, lemma_marker_is_match, lemma_marker_unique, lemma_match_is_marker, match_at, MarkerSpan};
use crate::marker::MarkerView;
use crate::chars::{CharClass, is_name_char};

verus! {

/// The markers of `s` from position `i` on, from left to right: the first
/// position at or after `i` where a marker starts gives the first one, and
/// the search goes on behind its closing braces.
pub open spec fn scan_from(s: Seq<char>, i: int) -> Seq<MarkerSpan>
    decreases s.len() - i,
{
    if 0 <= i < s.len() {
        match match_at(s, i) {
            Some(m) => {
                proof {
                    lemma_match_is_marker(s, i);
                }
                seq![m] + scan_from(s, m.end())
            },
            None => scan_from(s, i + 1),
        }
    } else {
        Seq::empty()
    }
}

/// The markers of `s`, from left to right.
pub open spec fn scan(s: Seq<char>) -> Seq<MarkerSpan> {
    scan_from(s, 0)
}

/// The anchor that carries `name` as its identifier.
pub open spec fn anchor(name: Seq<char>) -> Seq<char> {
    "<a id=\""@ + name + "\"></a>"@
}

/// What stands in place of a marker `name`: the anchor, then the name.
pub open spec fn substitution(name: Seq<char>) -> Seq<char> {
    anchor(name) + name
}

/// The text of `s` from `from` on with each marker of `spans` replaced: the
/// text in front of a marker is kept, the marker gives way to its
/// substitution, and the text behind the last marker is kept.
pub open spec fn rewrite_with(s: Seq<char>, spans: Seq<MarkerSpan>, from: int) -> Seq<char>
    decreases spans.len(),
{
    if spans.len() == 0 {
        s.subrange(from, s.len() as int)
    } else {
        s.subrange(from, spans[0].start) + substitution(spans[0].name(s)) + rewrite_with(
            s,
            spans.drop_first(),
            spans[0].end(),
        )
    }
}

/// The text `s` with each of its markers replaced.
pub open spec fn rewritten(s: Seq<char>) -> Seq<char> {
    rewrite_with(s, scan(s), 0)
}

/// The record of the marker `m` of a document with the given title, path
/// and text.
pub open spec fn record(title: Seq<char>, path: Seq<char>, s: Seq<char>, m: MarkerSpan) -> MarkerView {
    MarkerView {
        name: m.name(s),
        description: m.description(s),
        source_title: title,
        source_path: path,
    }
}

/// The records of the markers `spans`, in their order.
pub open spec fn records(
    title: Seq<char>,
    path: Seq<char>,
    s: Seq<char>,
    spans: Seq<MarkerSpan>,
) -> Seq<MarkerView> {
    Seq::new(spans.len(), |k: int| record(title, path, s, spans[k]))
}

/// The characters that the markers `spans` take, all together.
pub open spec fn total_marker_len(spans: Seq<MarkerSpan>) -> int
    decreases spans.len(),
{
    if spans.len() == 0 {
        0
    } else {
        spans[0].len() + total_marker_len(spans.drop_first())
    }
}

/// The characters that the substitutions for the markers `spans` take, all
/// together.
pub open spec fn total_substitution_len(s: Seq<char>, spans: Seq<MarkerSpan>) -> int
    decreases spans.len(),
{
    if spans.len() == 0 {
        0
    } else {
        substitution(spans[0].name(s)).len() + total_substitution_len(s, spans.drop_first())
    }
}

/// `spans` lie in `s` from `from` on, one after the other without overlap.
pub open spec fn in_order(s: Seq<char>, spans: Seq<MarkerSpan>, from: int) -> bool {
    &&& forall|k: int| 0 <= k < spans.len() ==> from <= (#[trigger] spans[k]).start && spans[k].end() <= s.len()
    &&& forall|j: int, k: int| 0 <= j < k < spans.len() ==> (#[trigger] spans[j]).end() <= (#[trigger] spans[k]).start
}

/// The position `p` lies inside one of `spans`.
pub open spec fn covered(spans: Seq<MarkerSpan>, p: int) -> bool {
    exists|k: int| 0 <= k < spans.len() && (#[trigger] spans[k]).start <= p < spans[k].end()
}

/// Everything that the scan finds is a marker, and the markers found lie one
/// after the other, from left to right, without overlap.
pub proof fn lemma_scan_sound(s: Seq<char>, i: int)
    requires
        0 <= i,
    ensures
        forall|k: int| 0 <= k < scan_from(s, i).len() ==> is_marker(s, #[trigger] scan_from(s, i)[k]),
        in_order(s, scan_from(s, i), i),
    decreases s.len() - i,
{
    if i < s.len() {
        match match_at(s, i) {
            Some(m) => {
                lemma_match_is_marker(s, i);
                lemma_scan_sound(s, m.end());
                let rest = scan_from(s, m.end());
                let all = scan_from(s, i);
                assert(all == seq![m] + rest);
                assert forall|k: int| 0 <= k < all.len() implies is_marker(s, #[trigger] all[k]) && i
                    <= all[k].start && all[k].end() <= s.len() by {
                    if k > 0 {
                        assert(all[k] == rest[k - 1]);
                    }
                }
                assert forall|j: int, k: int| 0 <= j < k < all.len() implies (#[trigger] all[j]).end()
                    <= (#[trigger] all[k]).start by {
                    assert(all[k] == rest[k - 1]);
                    if j > 0 {
                        assert(all[j] == rest[j - 1]);
                    }
                }
            },
            None => {
                lemma_scan_sound(s, i + 1);
            },
        }
    }
}

/// The scan takes the leftmost marker first: a position at or after `i`
/// where a marker starts lies inside a marker that the scan finds.
pub proof fn lemma_scan_leftmost(s: Seq<char>, i: int, p: int)
    requires
        0 <= i <= p,
        match_at(s, p) is Some,
    ensures
        covered(scan_from(s, i), p),
    decreases s.len() - i,
{
    lemma_match_is_marker(s, p);
    assert(p < s.len());
    match match_at(s, i) {
        Some(m) => {
            lemma_match_is_marker(s, i);
            let all = scan_from(s, i);
            assert(all == seq![m] + scan_from(s, m.end()));
            if p < m.end() {
                assert(all[0] == m);
            } else {
                lemma_scan_leftmost(s, m.end(), p);
                let rest = scan_from(s, m.end());
                let k = choose|k: int| 0 <= k < rest.len() && (#[trigger] rest[k]).start <= p < rest[k].end();
                assert(all[k + 1] == rest[k]);
            }
        },
        None => {
            lemma_scan_leftmost(s, i + 1, p);
        },
    }
}

/// The substitution for a marker takes thirteen characters more than twice
/// its name.
pub proof fn lemma_substitution_len(name: Seq<char>)
    ensures
        substitution(name).len() == 2 * name.len() + 13,
{
    reveal_strlit("<a id=\"");
    reveal_strlit("\"></a>");
}

/// A text without markers is left as it is, and gives no records.
pub proof fn lemma_no_markers_unchanged(title: Seq<char>, path: Seq<char>, s: Seq<char>)
    requires
        scan(s).len() == 0,
    ensures
        rewritten(s) == s,
        records(title, path, s, scan(s)).len() == 0,
{
    assert(s.subrange(0, s.len() as int) == s);
}

/// A text in which the opening braces `{{` stand nowhere holds no marker.
pub proof fn lemma_no_opening_no_markers(s: Seq<char>, i: int)
    requires
        forall|p: int| !has_open(s, p),
    ensures
        scan_from(s, i).len() == 0,
    decreases s.len() - i,
{
    if 0 <= i < s.len() {
        assert(!has_open(s, i));
        lemma_no_opening_no_markers(s, i + 1);
    }
}

/// The rewritten text is as long as the text, less the characters that its
/// markers take, plus the characters that their substitutions take.
pub proof fn lemma_rewritten_len(s: Seq<char>)
    ensures
        rewritten(s).len() == s.len() - total_marker_len(scan(s)) + total_substitution_len(
            s,
            scan(s),
        ),
{
    lemma_scan_sound(s, 0);
    lemma_rewrite_with_len(s, scan(s), 0);
}

/// The length of a text from `from` on in which the markers `spans`, which
/// lie there one after the other, are replaced.
pub proof fn lemma_rewrite_with_len(s: Seq<char>, spans: Seq<MarkerSpan>, from: int)
    requires
        0 <= from <= s.len(),
        in_order(s, spans, from),
        forall|k: int| 0 <= k < spans.len() ==> (#[trigger] spans[k]).start <= spans[k].end(),
    ensures
        rewrite_with(s, spans, from).len() == s.len() - from - total_marker_len(spans)
            + total_substitution_len(s, spans),
    decreases spans.len(),
{
    if spans.len() > 0 {
        let first = spans[0];
        let rest = spans.drop_first();
        assert forall|k: int| 0 <= k < rest.len() implies first.end() <= (#[trigger] rest[k]).start
            && rest[k].end() <= s.len() && rest[k].start <= rest[k].end() by {
            assert(rest[k] == spans[k + 1]);
        }
        assert forall|j: int, k: int| 0 <= j < k < rest.len() implies (#[trigger] rest[j]).end() <= (
        #[trigger] rest[k]).start by {
            assert(rest[j] == spans[j + 1]);
            assert(rest[k] == spans[k + 1]);
        }
        lemma_rewrite_with_len(s, rest, first.end());
    }
}

/// Where no two markers of a text overlap, the scan finds every one of
/// them: its result holds each marker of the text, from left to right.
pub proof fn lemma_disjoint_markers_found(s: Seq<char>, m: MarkerSpan)
    requires
        forall|a: MarkerSpan, b: MarkerSpan|
            is_marker(s, a) && is_marker(s, b) && a.start < b.start ==> a.end() <= b.start,
        is_marker(s, m),
    ensures
        scan(s).contains(m),
{
    lemma_marker_is_match(s, m);
    lemma_scan_sound(s, 0);
    lemma_scan_leftmost(s, 0, m.start);
    let found = scan(s);
    let k = choose|k: int| 0 <= k < found.len() && (#[trigger] found[k]).start <= m.start < found[k].end();
    assert(is_marker(s, found[k]));
    if found[k].start < m.start {
        assert(found[k].end() <= m.start);
    }
    lemma_marker_unique(s, found[k], m);
}

/// The name and the description of every marker are well formed.
pub proof fn lemma_record_well_formed(title: Seq<char>, path: Seq<char>, s: Seq<char>, m: MarkerSpan)
    requires
        is_marker(s, m),
    ensures
        record(title, path, s, m).well_formed(),
{
    let r = record(title, path, s, m);
    assert forall|k: int| 0 <= k < r.name.len() implies is_name_char(#[trigger] r.name[k]) by {
        assert(CharClass::Name.has(s[m.name_start + k]));
    }
    assert forall|k: int| 0 <= k < r.description.len() implies #[trigger] r.description[k] != '}' by {
        assert(CharClass::Text.has(s[m.desc_start + k]));
    }
}

/// `spans` are what a scan of `s` from `from` on has to find: each is a
/// marker, they lie one after the other, and wherever a marker starts at or
/// after `from`, one of them lies.
pub open spec fn is_scan_from(s: Seq<char>, spans: Seq<MarkerSpan>, from: int) -> bool {
    &&& forall|k: int| 0 <= k < spans.len() ==> is_marker(s, #[trigger] spans[k])
    &&& in_order(s, spans, from)
    &&& forall|p: int| from <= p && match_at(s, p) is Some ==> covered(spans, p)
}

/// The scan finds what it has to find.
pub proof fn lemma_scan_is_scan(s: Seq<char>, i: int)
    requires
        0 <= i,
    ensures
        is_scan_from(s, scan_from(s, i), i),
{
    lemma_scan_sound(s, i);
    assert forall|p: int| i <= p && match_at(s, p) is Some implies covered(scan_from(s, i), p) by {
        lemma_scan_leftmost(s, i, p);
    }
}

/// A marker takes at least one character and lies inside the text.
pub proof fn lemma_marker_extent(s: Seq<char>, m: MarkerSpan)
    requires
        is_marker(s, m),
    ensures
        0 <= m.start < m.end() <= s.len(),
{
}

/// Where a marker starts at `from`, it is the first that a scan from `from`
/// on has to find, and the others are what a scan from its end on has to
/// find.
proof fn lemma_is_scan_first(s: Seq<char>, spans: Seq<MarkerSpan>, from: int, m: MarkerSpan)
    requires
        0 <= from,
        is_scan_from(s, spans, from),
        match_at(s, from) == Some(m),
    ensures
        spans.len() > 0,
        spans[0] == m,
        is_scan_from(s, spans.drop_first(), m.end()),
{
    assert(covered(spans, from));
    let k = choose|k: int| 0 <= k < spans.len() && (#[trigger] spans[k]).start <= from < spans[k].end();
    lemma_marker_is_match(s, spans[k]);
    assert(spans[k] == m);
    if k > 0 {
        lemma_marker_extent(s, spans[0]);
        assert(spans[0].end() <= spans[k].start);
    }
    let rest = spans.drop_first();
    assert forall|j: int| 0 <= j < rest.len() implies is_marker(s, #[trigger] rest[j]) by {
        assert(rest[j] == spans[j + 1]);
    }
    assert(in_order(s, rest, m.end())) by {
        assert forall|j: int| 0 <= j < rest.len() implies m.end() <= (#[trigger] rest[j]).start
            && rest[j].end() <= s.len() by {
            assert(rest[j] == spans[j + 1]);
            assert(spans[0].end() <= spans[j + 1].start);
        }
        assert forall|a: int, b: int| 0 <= a < b < rest.len() implies (#[trigger] rest[a]).end() <= (
        #[trigger] rest[b]).start by {
            assert(rest[a] == spans[a + 1]);
            assert(rest[b] == spans[b + 1]);
        }
    }
    assert forall|p: int| m.end() <= p && match_at(s, p) is Some implies covered(rest, p) by {
        assert(covered(spans, p));
        let j = choose|j: int| 0 <= j < spans.len() && (#[trigger] spans[j]).start <= p < spans[j].end();
        assert(rest[j - 1] == spans[j]);
    }
}

/// Where no marker starts at `from`, a scan from `from` on has to find what
/// a scan from the next position on has to find.
proof fn lemma_is_scan_skip(s: Seq<char>, spans: Seq<MarkerSpan>, from: int)
    requires
        0 <= from,
        is_scan_from(s, spans, from),
        match_at(s, from) is None,
    ensures
        is_scan_from(s, spans, from + 1),
{
    assert forall|k: int| 0 <= k < spans.len() implies from + 1 <= (#[trigger] spans[k]).start by {
        lemma_marker_is_match(s, spans[k]);
    }
}

/// Nothing else does: the markers, their order and the rule that the
/// leftmost marker is taken first decide the result of the scan.
pub proof fn lemma_scan_unique(s: Seq<char>, spans: Seq<MarkerSpan>, from: int)
    requires
        0 <= from,
        is_scan_from(s, spans, from),
    ensures
        spans == scan_from(s, from),
    decreases s.len() - from,
{
    if from >= s.len() {
        if spans.len() > 0 {
            lemma_marker_extent(s, spans[0]);
        }
        assert(spans == scan_from(s, from));
    } else {
        match match_at(s, from) {
            Some(m) => {
                lemma_match_is_marker(s, from);
                lemma_is_scan_first(s, spans, from, m);
                lemma_scan_unique(s, spans.drop_first(), m.end());
                assert(spans == seq![m] + spans.drop_first());
            },
            None => {
                lemma_is_scan_skip(s, spans, from);
                lemma_scan_unique(s, spans, from + 1);
            },
        }
    }
}

} // verus!
