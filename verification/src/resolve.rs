//! The release that a host commit falls under.
//!
//! The place of a timestamp among the releases is found by bisection. Among
//! releases in ascending order that place is the insertion point: everything
//! before it is no later than the timestamp, everything from it on no
//! earlier, and a release with that very timestamp stands at it. The commit
//! falls under the release just before the place, or under none where the
//! place is the first. Which of several releases with one timestamp the
//! bisection lands on is settled by its halving and is nothing to build on.

use vstd::prelude::*;
use crate::order::{at_most, order_of, precedes, text_order, TextOrder};
use crate::order::{
    lemma_at_most_then_precedes,
    lemma_precedes_irreflexive,
    lemma_precedes_then_at_most,
    lemma_precedes_total,
};
use crate::release::{Release, ReleaseView};

verus! {

/// No release is earlier than one that stands before it.
pub open spec fn is_ascending(releases: Seq<ReleaseView>) -> bool {
    forall|i: int, j: int|
        #![trigger releases[i], releases[j]]
        0 <= i <= j < releases.len() ==> at_most(releases[i].created_at, releases[j].created_at)
}

/// Every release is earlier than those that stand after it.
pub open spec fn is_strictly_ascending(releases: Seq<ReleaseView>) -> bool {
    forall|i: int, j: int|
        #![trigger releases[i], releases[j]]
        0 <= i < j < releases.len() ==> precedes(releases[i].created_at, releases[j].created_at)
}

/// Where bisection between `lo` and `hi` ends for the timestamp `target`.
pub open spec fn bisect(releases: Seq<ReleaseView>, target: Seq<char>, lo: int, hi: int) -> int
    decreases hi - lo,
{
    if lo >= hi {
        lo
    } else {
        let mid = lo + (hi - lo) / 2;
        match order_of(releases[mid].created_at, target) {
            TextOrder::Before => bisect(releases, target, mid + 1, hi),
            TextOrder::Same => mid,
            TextOrder::After => bisect(releases, target, lo, mid),
        }
    }
}

/// The place of a timestamp among the releases.
pub open spec fn insertion_index(releases: Seq<ReleaseView>, target: Seq<char>) -> int {
    bisect(releases, target, 0, releases.len() as int)
}

/// `at` is a place at which `target` can stand among the releases: nothing
/// before it is later, nothing from it on is earlier, and where a release has
/// that very timestamp, one such release stands at `at`.
pub open spec fn is_insertion_point(releases: Seq<ReleaseView>, target: Seq<char>, at: int) -> bool {
    &&& 0 <= at <= releases.len()
    &&& forall|i: int| 0 <= i < at ==> at_most((#[trigger] releases[i]).created_at, target)
    &&& forall|i: int|
        at <= i < releases.len() ==> at_most(target, (#[trigger] releases[i]).created_at)
    &&& (exists|i: int| 0 <= i < releases.len() && (#[trigger] releases[i]).created_at == target)
        ==> at < releases.len() && releases[at].created_at == target
}

/// The release that a commit with the timestamp `target` falls under: the
/// one just before the timestamp's place, if there is one.
pub open spec fn enclosing_release(releases: Seq<ReleaseView>, target: Seq<char>) -> Option<int> {
    let at = insertion_index(releases, target);
    if at <= 0 {
        None
    } else {
        Some(at - 1)
    }
}

/// The label of commits that fall under no release.
pub open spec fn no_release_label() -> Seq<char> {
    "None"@
}

/// The label of the release that a commit with the timestamp `target` falls
/// under: the release's name, or the label for none.
pub open spec fn release_label(releases: Seq<ReleaseView>, target: Seq<char>) -> Seq<char> {
    match enclosing_release(releases, target) {
        Some(k) => releases[k].tag_name,
        None => no_release_label(),
    }
}

/// Bisection ends between its bounds.
pub proof fn lemma_bisect_in_bounds(releases: Seq<ReleaseView>, target: Seq<char>, lo: int, hi: int)
    requires
        0 <= lo <= hi <= releases.len(),
    ensures
        lo <= bisect(releases, target, lo, hi) <= hi,
    decreases hi - lo,
{
    if lo < hi {
        let mid = lo + (hi - lo) / 2;
        match order_of(releases[mid].created_at, target) {
            TextOrder::Before => lemma_bisect_in_bounds(releases, target, mid + 1, hi),
            TextOrder::Same => {},
            TextOrder::After => lemma_bisect_in_bounds(releases, target, lo, mid),
        }
    }
}

/// Bisection keeps what it has learned: with everything before `lo` earlier
/// than the timestamp and everything from `hi` on later, it ends at an
/// insertion point.
pub proof fn lemma_bisect_narrows(releases: Seq<ReleaseView>, target: Seq<char>, lo: int, hi: int)
    requires
        is_ascending(releases),
        0 <= lo <= hi <= releases.len(),
        forall|i: int| 0 <= i < lo ==> precedes((#[trigger] releases[i]).created_at, target),
        forall|i: int|
            hi <= i < releases.len() ==> precedes(target, (#[trigger] releases[i]).created_at),
    ensures
        is_insertion_point(releases, target, bisect(releases, target, lo, hi)),
    decreases hi - lo,
{
    if lo >= hi {
        assert forall|i: int| 0 <= i < releases.len() implies (
        #[trigger] releases[i]).created_at != target by {
            lemma_precedes_irreflexive(target);
        }
        assert forall|i: int| 0 <= i < lo implies at_most(
            (#[trigger] releases[i]).created_at,
            target,
        ) by {
            lemma_precedes_total(releases[i].created_at, target);
        }
        assert forall|i: int| lo <= i < releases.len() implies at_most(
            target,
            (#[trigger] releases[i]).created_at,
        ) by {
            lemma_precedes_total(releases[i].created_at, target);
        }
    } else {
        let mid = lo + (hi - lo) / 2;
        let stamp = releases[mid].created_at;
        match order_of(stamp, target) {
            TextOrder::Before => {
                assert forall|i: int| 0 <= i < mid + 1 implies precedes(
                    (#[trigger] releases[i]).created_at,
                    target,
                ) by {
                    assert(at_most(releases[i].created_at, releases[mid].created_at));
                    lemma_at_most_then_precedes(releases[i].created_at, stamp, target);
                }
                lemma_bisect_narrows(releases, target, mid + 1, hi);
            },
            TextOrder::Same => {
                assert forall|i: int| 0 <= i < mid implies at_most(
                    (#[trigger] releases[i]).created_at,
                    target,
                ) by {
                    assert(at_most(releases[i].created_at, releases[mid].created_at));
                }
                assert forall|i: int| mid <= i < releases.len() implies at_most(
                    target,
                    (#[trigger] releases[i]).created_at,
                ) by {
                    assert(at_most(releases[mid].created_at, releases[i].created_at));
                }
            },
            TextOrder::After => {
                lemma_precedes_total(stamp, target);
                assert forall|i: int| mid <= i < releases.len() implies precedes(
                    target,
                    (#[trigger] releases[i]).created_at,
                ) by {
                    assert(at_most(releases[mid].created_at, releases[i].created_at));
                    lemma_precedes_then_at_most(target, stamp, releases[i].created_at);
                }
                lemma_bisect_narrows(releases, target, lo, mid);
            },
        }
    }
}

/// Among releases in ascending order the place of a timestamp is an
/// insertion point.
pub proof fn lemma_insertion_index_is_insertion_point(
    releases: Seq<ReleaseView>,
    target: Seq<char>,
)
    requires
        is_ascending(releases),
    ensures
        is_insertion_point(releases, target, insertion_index(releases, target)),
{
    lemma_bisect_narrows(releases, target, 0, releases.len() as int);
}

/// Finds the place of a timestamp among the releases.
pub fn insertion_point(releases: &Vec<Release>, target: &str) -> (at: usize)
    ensures
        at == insertion_index(releases.deep_view(), target@),
        at <= releases.len(),
        is_ascending(releases.deep_view()) ==> is_insertion_point(
            releases.deep_view(),
            target@,
            at as int,
        ),
{
    let ghost all = releases.deep_view();
    let mut lo: usize = 0;
    let mut hi: usize = releases.len();
    proof {
        if is_ascending(all) {
            lemma_insertion_index_is_insertion_point(all, target@);
        }
    }
    while lo < hi
        invariant
            lo <= hi <= releases.len(),
            all == releases.deep_view(),
            insertion_index(all, target@) == bisect(all, target@, lo as int, hi as int),
        decreases hi - lo,
    {
        let mid = lo + (hi - lo) / 2;
        assert(all[mid as int].created_at == releases[mid as int].created_at@);
        match text_order(releases[mid].created_at.as_str(), target) {
            TextOrder::Before => {
                lo = mid + 1;
            },
            TextOrder::Same => {
                return mid;
            },
            TextOrder::After => {
                hi = mid;
            },
        }
    }
    lo
}

/// Finds the release that a commit with the given timestamp falls under.
pub fn enclosing(releases: &Vec<Release>, target: &str) -> (found: Option<usize>)
    ensures
        match found {
            Some(k) => k < releases.len() && enclosing_release(releases.deep_view(), target@)
                == Some(k as int),
            None => enclosing_release(releases.deep_view(), target@) is None,
        },
{
    let at = insertion_point(releases, target);
    if at == 0 {
        None
    } else {
        Some(at - 1)
    }
}

/// Names the release that a commit with the given timestamp falls under.
pub fn resolve_release(releases: &Vec<Release>, target: &str) -> (label: String)
    ensures
        label@ == release_label(releases.deep_view(), target@),
{
    match enclosing(releases, target) {
        Some(k) => {
            assert(releases.deep_view()[k as int].tag_name == releases[k as int].tag_name@);
            releases[k].tag_name.clone()
        },
        None => "None".to_owned(),
    }
}

/// Releases of which each is earlier than the next are in ascending order.
pub proof fn lemma_strictly_ascending_is_ascending(releases: Seq<ReleaseView>)
    requires
        is_strictly_ascending(releases),
    ensures
        is_ascending(releases),
{
    assert forall|i: int, j: int|
        #![trigger releases[i], releases[j]]
        0 <= i <= j < releases.len() implies at_most(
        releases[i].created_at,
        releases[j].created_at,
    ) by {
        lemma_precedes_total(releases[i].created_at, releases[j].created_at);
    }
}

/// Among releases with timestamps that all differ a timestamp has one
/// insertion point only.
pub proof fn lemma_insertion_point_unique(
    releases: Seq<ReleaseView>,
    target: Seq<char>,
    a: int,
    b: int,
)
    requires
        is_strictly_ascending(releases),
        is_insertion_point(releases, target, a),
        is_insertion_point(releases, target, b),
    ensures
        a == b,
{
    if a != b {
        let (low, high) = if a < b {
            (a, b)
        } else {
            (b, a)
        };
        // The release at `low` is no later and no earlier than the timestamp.
        assert(at_most(releases[low].created_at, target));
        assert(at_most(target, releases[low].created_at));
        lemma_precedes_total(releases[low].created_at, target);
        assert(releases[low].created_at == target);
        assert(releases[high].created_at == target);
        lemma_precedes_irreflexive(target);
    }
}

/// A commit with the very timestamp of a release falls under the release
/// before it, and under none where that release is the first.
pub proof fn lemma_resolves_at_release(releases: Seq<ReleaseView>, i: int)
    requires
        is_strictly_ascending(releases),
        0 <= i < releases.len(),
    ensures
        enclosing_release(releases, releases[i].created_at) == if i == 0 {
            None
        } else {
            Some(i - 1)
        },
{
    let target = releases[i].created_at;
    lemma_strictly_ascending_is_ascending(releases);
    lemma_insertion_index_is_insertion_point(releases, target);
    assert(is_insertion_point(releases, target, i)) by {
        assert forall|k: int| 0 <= k < i implies at_most(
            (#[trigger] releases[k]).created_at,
            target,
        ) by {
            assert(at_most(releases[k].created_at, releases[i].created_at));
        }
        assert forall|k: int| i <= k < releases.len() implies at_most(
            target,
            (#[trigger] releases[k]).created_at,
        ) by {
            assert(at_most(releases[i].created_at, releases[k].created_at));
        }
    }
    lemma_insertion_point_unique(releases, target, i, insertion_index(releases, target));
}

/// A commit later than a release and earlier than the next one, or later
/// than the last release, falls under that release.
pub proof fn lemma_resolves_after_release(releases: Seq<ReleaseView>, target: Seq<char>, i: int)
    requires
        is_strictly_ascending(releases),
        0 <= i < releases.len(),
        precedes(releases[i].created_at, target),
        i + 1 < releases.len() ==> precedes(target, releases[i + 1].created_at),
    ensures
        enclosing_release(releases, target) == Some(i),
{
    lemma_strictly_ascending_is_ascending(releases);
    lemma_insertion_index_is_insertion_point(releases, target);
    assert(is_insertion_point(releases, target, i + 1)) by {
        assert forall|k: int| 0 <= k < i + 1 implies precedes(
            (#[trigger] releases[k]).created_at,
            target,
        ) by {
            assert(at_most(releases[k].created_at, releases[i].created_at));
            lemma_at_most_then_precedes(releases[k].created_at, releases[i].created_at, target);
        }
        assert forall|k: int| i + 1 <= k < releases.len() implies precedes(
            target,
            (#[trigger] releases[k]).created_at,
        ) by {
            assert(at_most(releases[i + 1].created_at, releases[k].created_at));
            lemma_precedes_then_at_most(target, releases[i + 1].created_at, releases[k].created_at);
        }
        assert forall|k: int| 0 <= k < releases.len() implies (
        #[trigger] releases[k]).created_at != target && at_most(releases[k].created_at, target)
            == (k < i + 1) by {
            lemma_precedes_irreflexive(target);
            lemma_precedes_total(releases[k].created_at, target);
        }
    }
    lemma_insertion_point_unique(releases, target, i + 1, insertion_index(releases, target));
}

/// A commit earlier than every release falls under none.
pub proof fn lemma_resolves_before_all(releases: Seq<ReleaseView>, target: Seq<char>)
    requires
        is_strictly_ascending(releases),
        releases.len() > 0 ==> precedes(target, releases[0].created_at),
    ensures
        enclosing_release(releases, target) is None,
{
    lemma_strictly_ascending_is_ascending(releases);
    lemma_insertion_index_is_insertion_point(releases, target);
    assert(is_insertion_point(releases, target, 0)) by {
        assert forall|k: int| 0 <= k < releases.len() implies precedes(
            target,
            (#[trigger] releases[k]).created_at,
        ) by {
            assert(at_most(releases[0].created_at, releases[k].created_at));
            lemma_precedes_then_at_most(target, releases[0].created_at, releases[k].created_at);
        }
        assert forall|k: int| 0 <= k < releases.len() implies (
        #[trigger] releases[k]).created_at != target && at_most(target, releases[k].created_at) by {
            lemma_precedes_irreflexive(target);
            lemma_precedes_total(releases[k].created_at, target);
        }
    }
    lemma_insertion_point_unique(releases, target, 0, insertion_index(releases, target));
}

} // verus!
