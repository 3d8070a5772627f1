//! Submodule bumps: the two-line records of the host log, and the rule that
//! reads a range of dependent commits out of a status line.
//!
//! A record is a line with the host commit's id followed by a status line:
//! the words `Submodule <path> `, a range `<old>...<new>`, and one of the
//! annotations `:`, ` (new submodule)`, ` (commits not present)`, or none.
//! The range is cut at its first and at its last dot; what stands between them
//! has to hold the three-dot separator.

use vstd::prelude::*;
use crate::text::{chars_of, ends_with, last_position, position, starts_with, text_of, trim, trimmed};
use crate::text::{is_trimmed, lemma_trim_of_trimmed};

verus! {

/// One change of the submodule pointer: the host commit that made it and the
/// dependent commits that the pointer went from and to.
#[derive(Debug, PartialEq, Eq)]
pub struct SubmoduleBump {
    pub host_commit_id: String,
    pub start_id: String,
    pub end_id: String,
}

/// What a [`SubmoduleBump`] holds, as texts.
pub struct BumpView {
    pub host_commit_id: Seq<char>,
    pub start_id: Seq<char>,
    pub end_id: Seq<char>,
}

impl DeepView for SubmoduleBump {
    type V = BumpView;

    open spec fn deep_view(&self) -> BumpView {
        BumpView {
            host_commit_id: self.host_commit_id@,
            start_id: self.start_id@,
            end_id: self.end_id@,
        }
    }
}

impl View for SubmoduleBump {
    type V = BumpView;

    open spec fn view(&self) -> BumpView {
        self.deep_view()
    }
}

impl Clone for SubmoduleBump {
    fn clone(&self) -> (copy: Self)
        ensures
            copy == *self,
    {
        SubmoduleBump {
            host_commit_id: self.host_commit_id.clone(),
            start_id: self.start_id.clone(),
            end_id: self.end_id.clone(),
        }
    }
}

/// Why a record is no submodule bump.
#[derive(Clone, Copy, Debug, PartialEq, Eq, Structural)]
pub enum ParseError {
    /// The status line does not begin with `Submodule <path> `.
    MissingPrefix,
    /// The range holds no run of three dots.
    MissingSeparator,
    /// Nothing but white space stands before the first dot or after the last.
    EmptyId,
}

/// The three dots between the two ids of a range.
pub open spec fn separator() -> Seq<char> {
    seq!['.', '.', '.']
}

/// The words that a status line for the submodule at `path` begins with.
pub open spec fn status_prefix(path: Seq<char>) -> Seq<char> {
    "Submodule "@ + path + seq![' ']
}

/// The annotation of a submodule that the host commit added.
pub open spec fn new_submodule_note() -> Seq<char> {
    " (new submodule)"@
}

/// The annotation of a range whose commits the local clone lacks.
pub open spec fn commits_absent_note() -> Seq<char> {
    " (commits not present)"@
}

/// What is left of a status line's rest once its annotation is taken off.
pub open spec fn without_annotation(rest: Seq<char>) -> Seq<char> {
    if seq![':'].is_suffix_of(rest) {
        rest.take(rest.len() - 1)
    } else if new_submodule_note().is_suffix_of(rest) {
        rest.take(rest.len() - new_submodule_note().len())
    } else if commits_absent_note().is_suffix_of(rest) {
        rest.take(rest.len() - commits_absent_note().len())
    } else {
        rest
    }
}

/// The separator stands at place `i` of the range.
pub open spec fn separator_at(range: Seq<char>, i: int) -> bool {
    0 <= i <= range.len() - 3 && range.subrange(i, i + 3) == separator()
}

/// The range holds the separator somewhere.
pub open spec fn has_separator(range: Seq<char>) -> bool {
    exists|i: int| separator_at(range, i)
}

/// An id as a range gives it: not empty, without a dot, and with no white
/// space at either end.
pub open spec fn is_range_id(id: Seq<char>) -> bool {
    id.len() > 0 && !id.contains('.') && is_trimmed(id)
}

/// The two ids of a range: what stands before its first dot and what stands
/// after its last one, each trimmed.
pub open spec fn split_range(range: Seq<char>) -> Result<(Seq<char>, Seq<char>), ParseError> {
    if !has_separator(range) {
        Err(ParseError::MissingSeparator)
    } else {
        let start = trim(range.take(range.index_of_first('.').unwrap()));
        let end = trim(range.skip(range.index_of_last('.').unwrap() + 1));
        if start.len() == 0 || end.len() == 0 {
            Err(ParseError::EmptyId)
        } else {
            Ok((start, end))
        }
    }
}

/// The range that `start` and `end` are written as.
pub open spec fn joined_range(start: Seq<char>, end: Seq<char>) -> Seq<char> {
    start + separator() + end
}

/// Tells whether three dots in a row stand somewhere in the range.
pub fn holds_separator(range: &[char]) -> (found: bool)
    ensures
        found == has_separator(range@),
{
    if range.len() < 3 {
        return false;
    }
    let mut i: usize = 0;
    while i <= range.len() - 3
        invariant
            range.len() >= 3,
            forall|j: int| 0 <= j < i ==> !separator_at(range@, j),
        decreases range.len() - i,
    {
        if range[i] == '.' && range[i + 1] == '.' && range[i + 2] == '.' {
            assert(range@.subrange(i as int, i + 3) =~= separator());
            assert(separator_at(range@, i as int));
            return true;
        }
        proof {
            let part = range@.subrange(i as int, i + 3);
            assert(part[0] == range@[i as int] && part[1] == range@[i + 1] && part[2]
                == range@[i + 2]);
        }
        i = i + 1;
    }
    false
}

/// Cuts a range into its two ids.
pub fn parse_range(range: &[char]) -> (ids: Result<(String, String), ParseError>)
    ensures
        match ids {
            Ok((start, end)) => split_range(range@) == Ok::<_, ParseError>((start@, end@)),
            Err(e) => split_range(range@) == Err::<(Seq<char>, Seq<char>), _>(e),
        },
{
    if !holds_separator(range) {
        return Err(ParseError::MissingSeparator);
    }
    proof {
        let i = choose|i: int| separator_at(range@, i);
        assert(range@.subrange(i, i + 3)[0] == '.');
        assert(range@.contains('.'));
        range@.index_of_first_ensures('.');
        range@.index_of_last_ensures('.');
    }
    let len = range.len();
    let first = position(range, '.').unwrap();
    let last = last_position(range, '.').unwrap();
    let start = trimmed(vstd::slice::slice_subrange(range, 0, first));
    let end = trimmed(vstd::slice::slice_subrange(range, last + 1, len));
    if start.len() == 0 || end.len() == 0 {
        return Err(ParseError::EmptyId);
    }
    Ok((text_of(start), text_of(end)))
}

/// The ids that a status line names for the submodule at `path`.
pub open spec fn range_of_status(line: Seq<char>, path: Seq<char>) -> Result<
    (Seq<char>, Seq<char>),
    ParseError,
> {
    let line = trim(line);
    let prefix = status_prefix(path);
    if prefix.is_prefix_of(line) {
        split_range(without_annotation(line.skip(prefix.len() as int)))
    } else {
        Err(ParseError::MissingPrefix)
    }
}

/// The bump that a record of two lines stands for.
pub open spec fn bump_of_record(
    commit_line: Seq<char>,
    status_line: Seq<char>,
    path: Seq<char>,
) -> Result<BumpView, ParseError> {
    match range_of_status(status_line, path) {
        Ok((start, end)) => Ok(
            BumpView { host_commit_id: trim(commit_line), start_id: start, end_id: end },
        ),
        Err(e) => Err(e),
    }
}

/// The bumps that a log excerpt stands for: its lines two by two, a last
/// line without a partner left out, and nothing at all once a record fails.
pub open spec fn bumps_of(lines: Seq<Seq<char>>, path: Seq<char>) -> Result<
    Seq<BumpView>,
    ParseError,
>
    decreases lines.len(),
{
    if lines.len() < 2 {
        Ok(Seq::empty())
    } else {
        match bump_of_record(lines[0], lines[1], path) {
            Err(e) => Err(e),
            Ok(bump) => match bumps_of(lines.skip(2), path) {
                Err(e) => Err(e),
                Ok(rest) => Ok(seq![bump] + rest),
            },
        }
    }
}

/// Spells out the words that a status line for the submodule begins with.
pub fn status_prefix_chars(path: &str) -> (prefix: Vec<char>)
    ensures
        prefix@ == status_prefix(path@),
{
    let mut prefix = chars_of("Submodule ");
    let mut tail = chars_of(path);
    prefix.append(&mut tail);
    prefix.push(' ');
    assert(prefix@ =~= status_prefix(path@));
    prefix
}

/// Takes the annotation off the rest of a status line.
pub fn strip_annotation(rest: &[char]) -> (kept: &[char])
    ensures
        kept@ == without_annotation(rest@),
{
    let len = rest.len();
    if len > 0 && rest[len - 1] == ':' {
        assert(rest@.subrange(len - 1, len as int) =~= seq![':']);
        return vstd::slice::slice_subrange(rest, 0, len - 1);
    }
    assert(!seq![':'].is_suffix_of(rest@)) by {
        if len > 0 {
            assert(rest@.subrange(len - 1, len as int)[0] == rest@[len - 1]);
        }
    }
    let added = chars_of(" (new submodule)");
    if ends_with(rest, added.as_slice()) {
        return vstd::slice::slice_subrange(rest, 0, len - added.len());
    }
    let absent = chars_of(" (commits not present)");
    if ends_with(rest, absent.as_slice()) {
        return vstd::slice::slice_subrange(rest, 0, len - absent.len());
    }
    assert(rest@.subrange(0, len as int) =~= rest@);
    vstd::slice::slice_subrange(rest, 0, len)
}

/// Reads the two ids out of a status line for the submodule at `path`.
pub fn parse_status_line(line: &str, path: &str) -> (ids: Result<(String, String), ParseError>)
    ensures
        match ids {
            Ok((start, end)) => range_of_status(line@, path@) == Ok::<_, ParseError>(
                (start@, end@),
            ),
            Err(e) => range_of_status(line@, path@) == Err::<(Seq<char>, Seq<char>), _>(e),
        },
{
    let chars = chars_of(line);
    let kept = trimmed(chars.as_slice());
    let prefix = status_prefix_chars(path);
    if !starts_with(kept, prefix.as_slice()) {
        return Err(ParseError::MissingPrefix);
    }
    let rest = vstd::slice::slice_subrange(kept, prefix.len(), kept.len());
    parse_range(strip_annotation(rest))
}

/// Reads a record: the line with the host commit's id and the status line
/// that follows it.
pub fn parse_record(commit_line: &str, status_line: &str, path: &str) -> (bump: Result<
    SubmoduleBump,
    ParseError,
>)
    ensures
        match bump {
            Ok(b) => bump_of_record(commit_line@, status_line@, path@) == Ok::<_, ParseError>(b@),
            Err(e) => bump_of_record(commit_line@, status_line@, path@) == Err::<BumpView, _>(e),
        },
{
    match parse_status_line(status_line, path) {
        Ok((start_id, end_id)) => {
            let chars = chars_of(commit_line);
            let host_commit_id = text_of(trimmed(chars.as_slice()));
            Ok(SubmoduleBump { host_commit_id, start_id, end_id })
        },
        Err(e) => Err(e),
    }
}

/// Reads every record of a log excerpt, in order. A last line without a
/// partner is passed over in silence; the first record that fails ends the
/// reading with its error.
pub fn extract_bumps(lines: &Vec<String>, path: &str) -> (bumps: Result<
    Vec<SubmoduleBump>,
    ParseError,
>)
    ensures
        match bumps {
            Ok(found) => bumps_of(lines.deep_view(), path@) == Ok::<_, ParseError>(
                found.deep_view(),
            ),
            Err(e) => bumps_of(lines.deep_view(), path@) == Err::<Seq<BumpView>, _>(e),
        },
{
    let ghost all = lines.deep_view();
    let mut found: Vec<SubmoduleBump> = Vec::new();
    let mut i: usize = 0;
    assert(all.skip(0) =~= all);
    assert(Seq::<BumpView>::empty() + bumps_of(all, path@).unwrap() =~= bumps_of(
        all,
        path@,
    ).unwrap());
    while lines.len() - i >= 2
        invariant
            i <= lines.len(),
            all == lines.deep_view(),
            bumps_of(all, path@) == match bumps_of(all.skip(i as int), path@) {
                Ok(rest) => Ok::<_, ParseError>(found.deep_view() + rest),
                Err(e) => Err(e),
            },
        decreases lines.len() - i,
    {
        let ghost rest = all.skip(i as int);
        assert(rest[0] == lines[i as int]@ && rest[1] == lines[i + 1]@);
        assert(rest.skip(2) =~= all.skip(i + 2));
        match parse_record(lines[i].as_str(), lines[i + 1].as_str(), path) {
            Ok(bump) => {
                let ghost before = found.deep_view();
                found.push(bump);
                assert(found.deep_view() =~= before + seq![bump@]);
                assert forall|tail: Seq<BumpView>|
                    before + (seq![bump@] + tail) == found.deep_view() + tail by {
                    assert(before + (seq![bump@] + tail) =~= found.deep_view() + tail);
                }
            },
            Err(e) => {
                return Err(e);
            },
        }
        i = i + 2;
    }
    assert(found.deep_view() + Seq::<BumpView>::empty() =~= found.deep_view());
    Ok(found)
}

/// Writes the range of a bump as the dependent repository is asked for it:
/// the two ids with the three dots between them, which names the commits
/// that one of the two reaches and the other does not.
pub fn range_expression(bump: &SubmoduleBump) -> (range: String)
    ensures
        range@ == joined_range(bump.start_id@, bump.end_id@),
{
    proof {
        reveal_strlit("...");
    }
    let mut range = bump.start_id.clone();
    range.append("...");
    range.append(bump.end_id.as_str());
    assert(range@ =~= joined_range(bump.start_id@, bump.end_id@));
    range
}

/// Splitting undoes joining: two ids written with the three dots between
/// them are given back as they were.
pub proof fn lemma_split_of_joined(start: Seq<char>, end: Seq<char>)
    requires
        is_range_id(start),
        is_range_id(end),
    ensures
        split_range(joined_range(start, end)) == Ok::<_, ParseError>((start, end)),
{
    let range = joined_range(start, end);
    let n = start.len() as int;
    assert(range.subrange(n, n + 3) =~= separator());
    assert(separator_at(range, n));
    assert(range[n] == '.' && range[n + 2] == '.');
    assert(range.contains('.'));
    range.index_of_first_ensures('.');
    range.index_of_last_ensures('.');
    let first = range.index_of_first('.').unwrap();
    let last = range.index_of_last('.').unwrap();
    if first < n {
        assert(start[first] == '.');
    }
    if last > n + 2 {
        assert(end[last - n - 3] == '.');
    }
    assert(range.take(first) =~= start);
    assert(range.skip(last + 1) =~= end);
    lemma_trim_of_trimmed(start);
    lemma_trim_of_trimmed(end);
}

/// Each of the three annotations comes off a range that it was put behind.
pub proof fn lemma_annotation_comes_off(range: Seq<char>, note: Seq<char>)
    requires
        note == seq![':'] || note == new_submodule_note() || note == commits_absent_note(),
    ensures
        without_annotation(range + note) == range,
{
    reveal_strlit(" (new submodule)");
    reveal_strlit(" (commits not present)");
    let rest = range + note;
    let len = rest.len() as int;
    assert(rest.subrange(len - note.len(), len) =~= note);
    assert(rest.take(len - note.len()) =~= range);
    if note != seq![':'] {
        assert(rest.last() == note.last());
        if seq![':'].is_suffix_of(rest) {
            assert(rest.subrange(len - 1, len)[0] == rest.last());
        }
        if note == commits_absent_note() && new_submodule_note().is_suffix_of(rest) {
            assert(rest.subrange(len - 16, len)[14] == rest[len - 2]);
            assert(rest[len - 2] == note[20]);
        }
    }
}

/// A well-formed record gives back what it was written from: whichever of
/// the three annotations the status line ends with, the bump holds the commit
/// line trimmed and the two ids of the range.
pub proof fn lemma_record_round_trip(
    commit_line: Seq<char>,
    status_line: Seq<char>,
    path: Seq<char>,
    start: Seq<char>,
    end: Seq<char>,
    note: Seq<char>,
)
    requires
        is_range_id(start),
        is_range_id(end),
        note == seq![':'] || note == new_submodule_note() || note == commits_absent_note(),
        trim(status_line) == status_prefix(path) + joined_range(start, end) + note,
    ensures
        bump_of_record(commit_line, status_line, path) == Ok::<_, ParseError>(
            BumpView { host_commit_id: trim(commit_line), start_id: start, end_id: end },
        ),
{
    let prefix = status_prefix(path);
    let range = joined_range(start, end);
    let line = trim(status_line);
    assert(line.subrange(0, prefix.len() as int) =~= prefix);
    assert(line.skip(prefix.len() as int) =~= range + note);
    lemma_annotation_comes_off(range, note);
    lemma_split_of_joined(start, end);
}

/// What a range is split into are ids: neither is empty, holds a dot, or has
/// white space at an end.
pub proof fn lemma_split_gives_ids(range: Seq<char>)
    ensures
        split_range(range) matches Ok((start, end)) ==> is_range_id(start) && is_range_id(end),
{
    if split_range(range) is Ok {
        range.index_of_first_ensures('.');
        range.index_of_last_ensures('.');
        let i = choose|i: int| separator_at(range, i);
        assert(range.subrange(i, i + 3)[0] == '.');
        assert(range.contains('.'));
        let first = range.index_of_first('.').unwrap();
        let last = range.index_of_last('.').unwrap();
        let before = range.take(first);
        let after = range.skip(last + 1);
        crate::text::lemma_trim_keeps_part(before);
        crate::text::lemma_trim_keeps_part(after);
        let (a, b) = crate::text::trim_span(before);
        let (c, d) = crate::text::trim_span(after);
        assert forall|k: int| 0 <= k < trim(before).len() implies trim(before)[k] != '.' by {
            assert(trim(before)[k] == range[a + k]);
        }
        assert forall|k: int| 0 <= k < trim(after).len() implies trim(after)[k] != '.' by {
            assert(trim(after)[k] == range[last + 1 + c + k]);
        }
    }
}

} // verus!
