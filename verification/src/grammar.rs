//! The marker syntax as a predicate on character sequences, and the function
//! that decides it at a given position.
//!
//! A marker reads `{{`, optional white space, `#check`, white space, a name,
//! optional white space, `|`, optional white space, a description, `}}`. The
//! description runs up to the first `}` after the `|`; white space in front
//! of it is left out as far as one character of description remains.

use vstd::prelude::*;
use crate::chars::{is_space, is_name_char, CharClass};

verus! {

/// Where a marker lies in a text. Every field is a position counted in
/// characters from the start of the text.
pub struct MarkerSpan {
    /// The first `{` of the opening braces.
    pub start: int,
    /// The `#` of the tag.
    pub tag: int,
    /// The first character of the name.
    pub name_start: int,
    /// The position after the last character of the name.
    pub name_end: int,
    /// The `|`.
    pub pipe: int,
    /// The first character of the description.
    pub desc_start: int,
    /// The position after the last character of the description, which is
    /// the first `}` of the closing braces.
    pub desc_end: int,
}

impl MarkerSpan {
    /// The position after the closing braces.
    pub open spec fn end(self) -> int {
        self.desc_end + 2
    }

    /// The number of characters that the marker takes.
    pub open spec fn len(self) -> int {
        self.end() - self.start
    }

    /// The name that the marker carries in `s`.
    pub open spec fn name(self, s: Seq<char>) -> Seq<char> {
        s.subrange(self.name_start, self.name_end)
    }

    /// The description that the marker carries in `s`.
    pub open spec fn description(self, s: Seq<char>) -> Seq<char> {
        s.subrange(self.desc_start, self.desc_end)
    }
}

/// Every character of `s` from `from` up to `to` belongs to `class`.
pub open spec fn all_in(s: Seq<char>, from: int, to: int, class: CharClass) -> bool {
    forall|k: int| from <= k < to ==> class.has(#[trigger] s[k])
}

/// The opening braces `{{` stand at `at`.
pub open spec fn has_open(s: Seq<char>, at: int) -> bool {
    0 <= at && at + 2 <= s.len() && s[at] == '{' && s[at + 1] == '{'
}

/// The closing braces `}}` stand at `at`.
pub open spec fn has_close(s: Seq<char>, at: int) -> bool {
    0 <= at && at + 2 <= s.len() && s[at] == '}' && s[at + 1] == '}'
}

/// The tag `#check` stands at `at`.
pub open spec fn has_tag(s: Seq<char>, at: int) -> bool {
    &&& 0 <= at
    &&& at + 6 <= s.len()
    &&& s[at] == '#'
    &&& s[at + 1] == 'c'
    &&& s[at + 2] == 'h'
    &&& s[at + 3] == 'e'
    &&& s[at + 4] == 'c'
    &&& s[at + 5] == 'k'
}

/// The marker syntax: `m` marks a marker of `s`.
pub open spec fn is_marker(s: Seq<char>, m: MarkerSpan) -> bool {
    &&& has_open(s, m.start)
    &&& m.start + 2 <= m.tag
    &&& all_in(s, m.start + 2, m.tag, CharClass::Space)
    &&& has_tag(s, m.tag)
    &&& m.tag + 6 < m.name_start
    &&& all_in(s, m.tag + 6, m.name_start, CharClass::Space)
    &&& m.name_start < m.name_end
    &&& all_in(s, m.name_start, m.name_end, CharClass::Name)
    &&& m.name_end <= m.pipe < s.len()
    &&& all_in(s, m.name_end, m.pipe, CharClass::Space)
    &&& s[m.pipe] == '|'
    &&& m.pipe < m.desc_start < m.desc_end
    &&& all_in(s, m.pipe + 1, m.desc_start, CharClass::Space)
    &&& is_space(s[m.desc_start]) ==> m.desc_start + 1 == m.desc_end
    &&& all_in(s, m.desc_start, m.desc_end, CharClass::Text)
    &&& has_close(s, m.desc_end)
}

/// The end of the longest run of characters of `class` that starts at `i`:
/// the first position from `i` on that holds no character of the class.
pub open spec fn run_end(s: Seq<char>, i: int, class: CharClass) -> int
    decreases s.len() - i,
{
    if 0 <= i < s.len() && class.has(s[i]) {
        run_end(s, i + 1, class)
    } else {
        i
    }
}

/// The marker that starts at `i`, if one does.
pub open spec fn match_at(s: Seq<char>, i: int) -> Option<MarkerSpan> {
    let tag = run_end(s, i + 2, CharClass::Space);
    let name_start = run_end(s, tag + 6, CharClass::Space);
    let name_end = run_end(s, name_start, CharClass::Name);
    let pipe = run_end(s, name_end, CharClass::Space);
    let lead = run_end(s, pipe + 1, CharClass::Space);
    let desc_end = run_end(s, pipe + 1, CharClass::Text);
    let desc_start = if lead < desc_end {
        lead
    } else {
        desc_end - 1
    };
    if has_open(s, i) && has_tag(s, tag) && tag + 6 < name_start && name_start < name_end && pipe
        < s.len() && s[pipe] == '|' && pipe + 1 < desc_end && has_close(s, desc_end) {
        Some(MarkerSpan { start: i, tag, name_start, name_end, pipe, desc_start, desc_end })
    } else {
        None
    }
}

/// A run ends at or after its start and inside the text, holds only
/// characters of its class, and is followed by none of them.
pub proof fn lemma_run_end(s: Seq<char>, i: int, class: CharClass)
    requires
        0 <= i <= s.len(),
    ensures
        i <= run_end(s, i, class) <= s.len(),
        all_in(s, i, run_end(s, i, class), class),
        run_end(s, i, class) < s.len() ==> !class.has(s[run_end(s, i, class)]),
    decreases s.len() - i,
{
    if i < s.len() && class.has(s[i]) {
        lemma_run_end(s, i + 1, class);
    }
}

/// A stretch of characters of `class` that is followed by none of them is
/// the run that starts where it starts.
pub proof fn lemma_run_end_unique(s: Seq<char>, i: int, j: int, class: CharClass)
    requires
        0 <= i <= j <= s.len(),
        all_in(s, i, j, class),
        j < s.len() ==> !class.has(s[j]),
    ensures
        run_end(s, i, class) == j,
    decreases j - i,
{
    if i < j {
        assert(class.has(s[i]));
        lemma_run_end_unique(s, i + 1, j, class);
    }
}

/// What `match_at` finds is a marker that starts at the given position.
pub proof fn lemma_match_is_marker(s: Seq<char>, i: int)
    requires
        match_at(s, i) is Some,
    ensures
        is_marker(s, match_at(s, i)->0),
        match_at(s, i)->0.start == i,
{
    let m = match_at(s, i)->0;
    lemma_run_end(s, i + 2, CharClass::Space);
    lemma_run_end(s, m.tag + 6, CharClass::Space);
    lemma_run_end(s, m.name_start, CharClass::Name);
    lemma_run_end(s, m.name_end, CharClass::Space);
    lemma_run_end(s, m.pipe + 1, CharClass::Space);
    lemma_run_end(s, m.pipe + 1, CharClass::Text);
    let lead = run_end(s, m.pipe + 1, CharClass::Space);
    assert(m.desc_end < s.len());
    assert(s[m.desc_end] == '}');
    assert(!is_space(s[m.desc_end]));
    if lead < m.desc_end {
        assert(!is_space(s[lead]));
    } else {
        // The whole stretch after the `|` is white space.
        assert(lead <= m.desc_end) by {
            if lead > m.desc_end {
                assert(CharClass::Space.has(s[m.desc_end]));
            }
        }
    }
    assert(all_in(s, m.pipe + 1, m.desc_start, CharClass::Space));
    assert(all_in(s, m.desc_start, m.desc_end, CharClass::Text));
}

/// Every marker is found by `match_at` at the position where it starts: the
/// text decides the marker that starts at a position.
pub proof fn lemma_marker_is_match(s: Seq<char>, m: MarkerSpan)
    requires
        is_marker(s, m),
    ensures
        match_at(s, m.start) == Some(m),
{
    assert(!is_space(s[m.tag]));
    lemma_run_end_unique(s, m.start + 2, m.tag, CharClass::Space);
    assert(CharClass::Name.has(s[m.name_start]));
    lemma_run_end_unique(s, m.tag + 6, m.name_start, CharClass::Space);
    assert(!is_name_char(s[m.name_end])) by {
        if m.name_end < m.pipe {
            assert(CharClass::Space.has(s[m.name_end]));
        }
    }
    lemma_run_end_unique(s, m.name_start, m.name_end, CharClass::Name);
    lemma_run_end_unique(s, m.name_end, m.pipe, CharClass::Space);
    assert(all_in(s, m.pipe + 1, m.desc_end, CharClass::Text)) by {
        assert forall|k: int| m.pipe + 1 <= k < m.desc_end implies CharClass::Text.has(
            #[trigger] s[k],
        ) by {
            if k < m.desc_start {
                assert(CharClass::Space.has(s[k]));
            }
        }
    }
    lemma_run_end_unique(s, m.pipe + 1, m.desc_end, CharClass::Text);
    if is_space(s[m.desc_start]) {
        assert(all_in(s, m.pipe + 1, m.desc_end, CharClass::Space)) by {
            assert forall|k: int| m.pipe + 1 <= k < m.desc_end implies CharClass::Space.has(
                #[trigger] s[k],
            ) by {
                if k < m.desc_start {
                    assert(CharClass::Space.has(s[k]));
                }
            }
        }
        lemma_run_end_unique(s, m.pipe + 1, m.desc_end, CharClass::Space);
    } else {
        lemma_run_end_unique(s, m.pipe + 1, m.desc_start, CharClass::Space);
    }
}

/// Two markers that start at the same position are the same marker.
pub proof fn lemma_marker_unique(s: Seq<char>, m1: MarkerSpan, m2: MarkerSpan)
    requires
        is_marker(s, m1),
        is_marker(s, m2),
        m1.start == m2.start,
    ensures
        m1 == m2,
{
    lemma_marker_is_match(s, m1);
    lemma_marker_is_match(s, m2);
}

} // verus!
