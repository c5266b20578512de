//! The text of the checklist document, as a function of the records.
//!
//! The records are listed in groups, one for each path. The groups stand in
//! the order in which their paths first occur among the records, and the
//! records of a group in the order in which they were added.

use vstd::prelude::*;
use crate::marker::MarkerView;

verus! {

/// The line that lists the record `m`: a link to the anchor of the marker
/// in its document, then the description.
pub open spec fn entry_line(m: MarkerView) -> Seq<char> {
    "- ["@ + m.name + "]("@ + m.source_path + "#"@ + m.name + "): "@ + m.description + "\n"@
}

/// The heading of the group that the record `m` opens: a link to the
/// document.
pub open spec fn group_heading(m: MarkerView) -> Seq<char> {
    "## ["@ + m.source_title + "]("@ + m.source_path + ")\n\n"@
}

/// The lines of the records `ms`, in their order.
pub open spec fn entry_lines(ms: Seq<MarkerView>) -> Seq<char>
    decreases ms.len(),
{
    if ms.len() == 0 {
        Seq::empty()
    } else {
        entry_lines(ms.drop_last()) + entry_line(ms.last())
    }
}

/// The test whether a record was found at `path`.
pub open spec fn at_path(path: Seq<char>) -> spec_fn(MarkerView) -> bool {
    |m: MarkerView| m.source_path == path
}

/// The records of `ms` that were found at `path`, in their order.
pub open spec fn found_at(ms: Seq<MarkerView>, path: Seq<char>) -> Seq<MarkerView> {
    ms.filter(at_path(path))
}

/// The record at `i` is the first of `ms` with its path.
pub open spec fn opens_group(ms: Seq<MarkerView>, i: int) -> bool {
    forall|j: int| 0 <= j < i ==> (#[trigger] ms[j]).source_path != ms[i].source_path
}

/// A group: the heading that `first` gives, the lines of `members`, and an
/// empty line.
pub open spec fn group_text(first: MarkerView, members: Seq<MarkerView>) -> Seq<char> {
    group_heading(first) + entry_lines(members) + "\n"@
}

/// The group of the path of the record at `i`.
pub open spec fn group_of(ms: Seq<MarkerView>, i: int) -> Seq<char> {
    group_text(ms[i], found_at(ms, ms[i].source_path))
}

/// The groups that the first `n` records of `ms` open, in their order.
pub open spec fn groups(ms: Seq<MarkerView>, n: int) -> Seq<char>
    decreases n,
{
    if n <= 0 {
        Seq::empty()
    } else if opens_group(ms, n - 1) {
        groups(ms, n - 1) + group_of(ms, n - 1)
    } else {
        groups(ms, n - 1)
    }
}

/// What stands under the title of the checklist document: the groups of
/// the records `ms`. It is empty where there are no records.
pub open spec fn body(ms: Seq<MarkerView>) -> Seq<char> {
    groups(ms, ms.len() as int)
}

/// The line that holds the title of the checklist document, and the empty
/// line after it.
pub open spec fn title_line(title: Seq<char>) -> Seq<char> {
    "# "@ + title + "\n\n"@
}

/// The text of the checklist document with the given title for the records
/// `ms`.
pub open spec fn document_text(title: Seq<char>, ms: Seq<MarkerView>) -> Seq<char> {
    title_line(title) + body(ms)
}

/// Without records the checklist document holds its title line and no
/// more.
pub proof fn lemma_no_records_no_body(title: Seq<char>)
    ensures
        body(Seq::empty()) == Seq::<char>::empty(),
        document_text(title, Seq::empty()) == title_line(title),
{
    assert(groups(Seq::empty(), 0) == Seq::<char>::empty());
}

/// Where no record of `ms` was found at `path`, none is picked for it.
pub proof fn lemma_found_at_none(ms: Seq<MarkerView>, path: Seq<char>)
    requires
        forall|j: int| 0 <= j < ms.len() ==> (#[trigger] ms[j]).source_path != path,
    ensures
        found_at(ms, path) == Seq::<MarkerView>::empty(),
    decreases ms.len(),
{
    if ms.len() > 0 {
        let init = ms.drop_last();
        assert(ms == init.push(ms.last()));
        assert forall|j: int| 0 <= j < init.len() implies (#[trigger] init[j]).source_path != path by {
            assert(init[j] == ms[j]);
        }
        lemma_found_at_none(init, path);
        init.lemma_filter_push(ms.last(), at_path(path));
    } else {
        assert(ms.filter(at_path(path)).len() <= ms.len()) by {
            ms.lemma_filter_len(at_path(path));
        }
    }
}

/// Where every record of `ms` was found at `path`, all are picked for it.
pub proof fn lemma_found_at_all(ms: Seq<MarkerView>, path: Seq<char>)
    requires
        forall|j: int| 0 <= j < ms.len() ==> (#[trigger] ms[j]).source_path == path,
    ensures
        found_at(ms, path) == ms,
    decreases ms.len(),
{
    if ms.len() > 0 {
        let init = ms.drop_last();
        assert(ms == init.push(ms.last()));
        assert forall|j: int| 0 <= j < init.len() implies (#[trigger] init[j]).source_path == path by {
            assert(init[j] == ms[j]);
        }
        lemma_found_at_all(init, path);
        init.lemma_filter_push(ms.last(), at_path(path));
    } else {
        assert(ms.filter(at_path(path)).len() <= ms.len()) by {
            ms.lemma_filter_len(at_path(path));
        }
    }
}

/// The groups that the first `n` records open stay as they are where
/// records of another path are added behind the records.
proof fn lemma_groups_of_prefix(ms: Seq<MarkerView>, block: Seq<MarkerView>, n: int)
    requires
        0 <= n <= ms.len(),
        forall|j: int, k: int|
            0 <= j < ms.len() && 0 <= k < block.len() ==> (#[trigger] ms[j]).source_path != (
            #[trigger] block[k]).source_path,
    ensures
        groups(ms + block, n) == groups(ms, n),
    decreases n,
{
    if n > 0 {
        let all = ms + block;
        let i = n - 1;
        lemma_groups_of_prefix(ms, block, i);
        assert(all[i] == ms[i]);
        assert(opens_group(all, i) == opens_group(ms, i)) by {
            assert forall|j: int| 0 <= j < i implies #[trigger] all[j] == ms[j] by {}
            if opens_group(ms, i) {
                assert forall|j: int| 0 <= j < i implies (#[trigger] all[j]).source_path
                    != all[i].source_path by {
                    assert(ms[j].source_path != ms[i].source_path);
                }
            } else {
                let j = choose|j: int| 0 <= j < i && !((#[trigger] ms[j]).source_path != ms[i].source_path);
                assert(all[j].source_path == all[i].source_path);
            }
        }
        let path = ms[i].source_path;
        assert(found_at(all, path) == found_at(ms, path)) by {
            Seq::filter_distributes_over_add(ms, block, at_path(path));
            lemma_found_at_none(block, path);
        }
    }
}

/// Behind the first record of a path, no further record of that path opens
/// a group.
proof fn lemma_groups_behind_first(all: Seq<MarkerView>, first: int, n: int)
    requires
        0 <= first < n <= all.len(),
        forall|k: int| first <= k < all.len() ==> (#[trigger] all[k]).source_path == all[first].source_path,
    ensures
        groups(all, n) == groups(all, first + 1),
    decreases n,
{
    if n > first + 1 {
        lemma_groups_behind_first(all, first, n - 1);
        assert(all[first].source_path == all[n - 1].source_path);
        assert(!opens_group(all, n - 1));
    }
}

/// Records of one path that no earlier record has, added behind the
/// records `ms`, add one group behind the groups of `ms`: the groups stand
/// in the order in which their paths first occur, and the records of a
/// group in the order in which they were added.
pub proof fn lemma_new_group_comes_last(ms: Seq<MarkerView>, block: Seq<MarkerView>)
    requires
        block.len() > 0,
        forall|k: int| 0 <= k < block.len() ==> (#[trigger] block[k]).source_path == block[0].source_path,
        forall|j: int| 0 <= j < ms.len() ==> (#[trigger] ms[j]).source_path != block[0].source_path,
    ensures
        body(ms + block) == body(ms) + group_text(block[0], block),
{
    let all = ms + block;
    let first = ms.len() as int;
    let path = block[0].source_path;
    assert forall|j: int, k: int| 0 <= j < ms.len() && 0 <= k < block.len() implies (#[trigger] ms[j]).source_path
        != (#[trigger] block[k]).source_path by {
        assert(block[k].source_path == path);
    }
    lemma_groups_of_prefix(ms, block, first);
    assert(all[first] == block[0]);
    assert(opens_group(all, first)) by {
        assert forall|j: int| 0 <= j < first implies (#[trigger] all[j]).source_path != all[first].source_path by {
            assert(all[j] == ms[j]);
        }
    }
    assert(found_at(all, path) == block) by {
        Seq::filter_distributes_over_add(ms, block, at_path(path));
        lemma_found_at_none(ms, path);
        lemma_found_at_all(block, path);
        assert(Seq::<MarkerView>::empty() + block == block);
    }
    assert forall|k: int| first <= k < all.len() implies (#[trigger] all[k]).source_path == all[first].source_path by {
        assert(all[k] == block[k - first]);
    }
    lemma_groups_behind_first(all, first, all.len() as int);
}

} // verus!
