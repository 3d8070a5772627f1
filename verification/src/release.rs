//! Releases of the host project, and the release that a host commit falls
//! under.
//!
//! The host's tags are listed one to a line as `<timestamp>|<tag name>`, in
//! ascending order of their timestamps. A commit falls under the release
//! that stands just before the place where its timestamp would be inserted;
//! a commit with the very timestamp of a release falls under the one before.

use vstd::prelude::*;
use crate::lines::{lines_of, split_lines};
use crate::text::{chars_of, position, text_of};

verus! {

/// A tagged release of the host project.
#[derive(Debug, PartialEq, Eq)]
pub struct Release {
    pub tag_name: String,
    pub created_at: String,
}

/// What a [`Release`] holds, as texts.
pub struct ReleaseView {
    pub tag_name: Seq<char>,
    pub created_at: Seq<char>,
}

impl DeepView for Release {
    type V = ReleaseView;

    open spec fn deep_view(&self) -> ReleaseView {
        ReleaseView { tag_name: self.tag_name@, created_at: self.created_at@ }
    }
}

impl View for Release {
    type V = ReleaseView;

    open spec fn view(&self) -> ReleaseView {
        self.deep_view()
    }
}

impl Clone for Release {
    fn clone(&self) -> (copy: Self)
        ensures
            copy == *self,
    {
        Release { tag_name: self.tag_name.clone(), created_at: self.created_at.clone() }
    }
}

/// The release that a line of the tag listing stands for: the timestamp up to
/// the first bar, the name after it. A line without a bar stands for none.
pub open spec fn release_of_line(line: Seq<char>) -> Option<ReleaseView> {
    match line.index_of_first('|') {
        Some(i) => Some(ReleaseView { tag_name: line.skip(i + 1), created_at: line.take(i) }),
        None => None,
    }
}

/// The releases that the lines of a tag listing stand for, or nothing where
/// one of the lines stands for none.
pub open spec fn releases_of_lines(lines: Seq<Seq<char>>) -> Option<Seq<ReleaseView>>
    decreases lines.len(),
{
    if lines.len() == 0 {
        Some(Seq::empty())
    } else {
        match (releases_of_lines(lines.drop_last()), release_of_line(lines.last())) {
            (Some(before), Some(release)) => Some(before.push(release)),
            _ => None,
        }
    }
}

/// The releases that a tag listing stands for.
pub open spec fn releases_of(listing: Seq<char>) -> Option<Seq<ReleaseView>> {
    releases_of_lines(lines_of(listing))
}

/// Reads one line of the tag listing.
pub fn parse_tag_line(line: &str) -> (release: Option<Release>)
    ensures
        match release {
            Some(r) => release_of_line(line@) == Some(r@),
            None => release_of_line(line@) is None,
        },
{
    let chars = chars_of(line);
    let all = chars.as_slice();
    let total = all.len();
    proof {
        all@.index_of_first_ensures('|');
    }
    match position(all, '|') {
        Some(bar) => Some(
            Release {
                tag_name: text_of(vstd::slice::slice_subrange(all, bar + 1, total)),
                created_at: text_of(vstd::slice::slice_subrange(all, 0, bar)),
            },
        ),
        None => None,
    }
}

/// Reads a tag listing. A line without a bar makes the whole listing
/// unreadable.
pub fn parse_tags(listing: &str) -> (releases: Option<Vec<Release>>)
    ensures
        match releases {
            Some(found) => releases_of(listing@) == Some(found.deep_view()),
            None => releases_of(listing@) is None,
        },
{
    let lines = split_lines(listing);
    let ghost all = lines.deep_view();
    let mut found: Vec<Release> = Vec::new();
    let mut i: usize = 0;
    assert(all.take(0) =~= Seq::<Seq<char>>::empty());
    while i < lines.len()
        invariant
            i <= lines.len(),
            all == lines.deep_view(),
            all == lines_of(listing@),
            releases_of_lines(all.take(i as int)) == Some(found.deep_view()),
        decreases lines.len() - i,
    {
        let ghost done = all.take(i + 1);
        assert(done.drop_last() =~= all.take(i as int));
        assert(done.last() == lines[i as int]@);
        match parse_tag_line(lines[i].as_str()) {
            Some(release) => {
                let ghost before = found.deep_view();
                found.push(release);
                assert(found.deep_view() =~= before.push(release@));
            },
            None => {
                proof {
                    assert(all[i as int] == lines[i as int]@);
                    lemma_unreadable_line(all, i as int);
                }
                return None;
            },
        }
        i = i + 1;
    }
    assert(all.take(i as int) =~= all);
    Some(found)
}

/// One line that stands for no release leaves nothing of the listing.
pub proof fn lemma_unreadable_line(lines: Seq<Seq<char>>, i: int)
    requires
        0 <= i < lines.len(),
        release_of_line(lines[i]) is None,
    ensures
        releases_of_lines(lines) is None,
    decreases lines.len(),
{
    if i < lines.len() - 1 {
        lemma_unreadable_line(lines.drop_last(), i);
    }
}

} // verus!
