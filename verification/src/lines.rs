//! Lines of a text: reading them one at a time, and splitting a whole text.

use vstd::prelude::*;
use crate::text::{chars_of, position, text_of};

verus! {

/// The first line of a text with its line feed, or the whole text where it
/// holds none.
pub open spec fn first_line(s: Seq<char>) -> Seq<char> {
    match s.index_of_first('\n') {
        Some(i) => s.take(i + 1),
        None => s,
    }
}

/// A line without the line feed at its end, and without the carriage return
/// before that line feed.
pub open spec fn without_line_end(line: Seq<char>) -> Seq<char> {
    if line.len() > 0 && line.last() == '\n' {
        let cut = line.drop_last();
        if cut.len() > 0 && cut.last() == '\r' {
            cut.drop_last()
        } else {
            cut
        }
    } else {
        line
    }
}

/// The lines of a text, each without its line end. A text that ends with a
/// line feed has no empty line after it.
pub open spec fn lines_of(s: Seq<char>) -> Seq<Seq<char>>
    decreases s.len(),
{
    if s.len() == 0 {
        Seq::empty()
    } else {
        let line = first_line(s);
        proof {
            lemma_first_line(s);
        }
        seq![without_line_end(line)] + lines_of(s.skip(line.len() as int))
    }
}

/// The first line of a text that is not empty is not empty, and is a prefix
/// of the text.
pub proof fn lemma_first_line(s: Seq<char>)
    ensures
        first_line(s).len() <= s.len(),
        s.len() > 0 ==> first_line(s).len() > 0,
        first_line(s) == s.take(first_line(s).len() as int),
{
    s.index_of_first_ensures('\n');
    assert(s.take(s.len() as int) =~= s);
    if s.index_of_first('\n') is Some {
        let i = s.index_of_first('\n').unwrap();
        assert(s.take(i + 1).take(i + 1) =~= s.take(i + 1));
    }
}

/// The length of the first line of a text.
pub fn first_line_len(s: &[char]) -> (len: usize)
    ensures
        len == first_line(s@).len(),
{
    let total = s.len();
    proof {
        s@.index_of_first_ensures('\n');
    }
    match position(s, '\n') {
        Some(i) => i + 1,
        None => total,
    }
}

/// Takes the line end off a line.
pub fn strip_line_end(line: &[char]) -> (kept: &[char])
    ensures
        kept@ == without_line_end(line@),
{
    let len = line.len();
    if len > 0 && line[len - 1] == '\n' {
        if len > 1 && line[len - 2] == '\r' {
            assert(line@.subrange(0, len - 2) =~= line@.drop_last().drop_last());
            vstd::slice::slice_subrange(line, 0, len - 2)
        } else {
            assert(line@.subrange(0, len - 1) =~= line@.drop_last());
            vstd::slice::slice_subrange(line, 0, len - 1)
        }
    } else {
        assert(line@.subrange(0, len as int) =~= line@);
        vstd::slice::slice_subrange(line, 0, len)
    }
}

/// Splits a text into its lines.
pub fn split_lines(text: &str) -> (lines: Vec<String>)
    ensures
        lines.deep_view() == lines_of(text@),
{
    let chars = chars_of(text);
    let all = chars.as_slice();
    let mut lines: Vec<String> = Vec::new();
    let mut at: usize = 0;
    assert(all@.skip(0) =~= all@);
    assert(Seq::<Seq<char>>::empty() + lines_of(all@) =~= lines_of(all@));
    while at < all.len()
        invariant
            at <= all.len(),
            all@ == text@,
            lines_of(text@) == lines.deep_view() + lines_of(all@.skip(at as int)),
        decreases all.len() - at,
    {
        let rest = vstd::slice::slice_subrange(all, at, all.len());
        let len = first_line_len(rest);
        proof {
            lemma_first_line(rest@);
            assert(rest@.skip(len as int) =~= all@.skip(at + len));
        }
        let line = strip_line_end(vstd::slice::slice_subrange(rest, 0, len));
        let ghost before = lines.deep_view();
        lines.push(text_of(line));
        assert(lines.deep_view() =~= before + seq![line@]);
        assert(before + (seq![line@] + lines_of(all@.skip(at + len))) =~= lines.deep_view()
            + lines_of(all@.skip(at + len)));
        at = at + len;
    }
    assert(lines.deep_view() + Seq::<Seq<char>>::empty() =~= lines.deep_view());
    lines
}

/// A text that is read line by line.
pub struct LineReader {
    chars: Vec<char>,
    at: usize,
}

impl LineReader {
    #[verifier::type_invariant]
    spec fn in_bounds(self) -> bool {
        self.at <= self.chars.len()
    }

    /// What has not been read yet.
    pub closed spec fn remaining(self) -> Seq<char> {
        self.chars@.skip(self.at as int)
    }

    /// A reader that stands at the start of `text`.
    pub fn new(text: &str) -> (reader: LineReader)
        ensures
            reader.remaining() == text@,
    {
        let chars = chars_of(text);
        assert(chars@.skip(0) =~= chars@);
        LineReader { chars, at: 0 }
    }
}

/// Reads the next line, with its line feed where it has one. At the end of
/// the text there is no line, and the reader stays where it is.
pub fn read_line(read: &mut LineReader) -> (line: Option<String>)
    ensures
        match line {
            Some(text) => {
                &&& old(read).remaining().len() > 0
                &&& text@ == first_line(old(read).remaining())
                &&& final(read).remaining() == old(read).remaining().skip(text@.len() as int)
            },
            None => old(read).remaining().len() == 0 && final(read).remaining() == old(
                read,
            ).remaining(),
        },
{
    proof {
        use_type_invariant(&*read);
    }
    let total = read.chars.len();
    if read.at >= total {
        return None;
    }
    let rest = vstd::slice::slice_subrange(read.chars.as_slice(), read.at, total);
    let len = first_line_len(rest);
    proof {
        lemma_first_line(rest@);
        assert(rest@.skip(len as int) =~= read.chars@.skip(read.at + len));
    }
    let text = text_of(vstd::slice::slice_subrange(rest, 0, len));
    read.at = read.at + len;
    Some(text)
}

} // verus!
