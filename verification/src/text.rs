//! Text as sequences of characters: decoding, whitespace, trimming and search.
//!
//! Every contract of this crate speaks of a string through its view, the
//! sequence of its characters. The functions here decode a string once and
//! then work on positions in that sequence.

use vstd::prelude::*;
use vstd::std_specs::iter::IteratorSpec;

verus! {

/// The characters with the Unicode property `White_Space`.
pub open spec fn is_whitespace(c: char) -> bool {
    let n = c as u32;
    (0x09 <= n <= 0x0d) || n == 0x20 || n == 0x85 || n == 0xa0 || n == 0x1680 || (0x2000 <= n
        <= 0x200a) || n == 0x2028 || n == 0x2029 || n == 0x202f || n == 0x205f || n == 0x3000
}

/// Tells whether a character is white space.
pub fn is_space(c: char) -> (b: bool)
    ensures
        b == is_whitespace(c),
{
    let n: u32 = c as u32;
    (0x09 <= n && n <= 0x0d) || n == 0x20 || n == 0x85 || n == 0xa0 || n == 0x1680 || (0x2000 <= n
        && n <= 0x200a) || n == 0x2028 || n == 0x2029 || n == 0x202f || n == 0x205f || n == 0x3000
}

/// A text without its leading white space.
pub open spec fn trim_start(s: Seq<char>) -> Seq<char>
    decreases s.len(),
{
    if s.len() > 0 && is_whitespace(s.first()) {
        trim_start(s.drop_first())
    } else {
        s
    }
}

/// A text without its trailing white space.
pub open spec fn trim_end(s: Seq<char>) -> Seq<char>
    decreases s.len(),
{
    if s.len() > 0 && is_whitespace(s.last()) {
        trim_end(s.drop_last())
    } else {
        s
    }
}

/// A text without the white space at either end.
pub open spec fn trim(s: Seq<char>) -> Seq<char> {
    trim_end(trim_start(s))
}

/// A text that trimming leaves as it is.
pub open spec fn is_trimmed(s: Seq<char>) -> bool {
    s.len() > 0 ==> !is_whitespace(s.first()) && !is_whitespace(s.last())
}

/// A text made of white space alone.
pub open spec fn is_blank(s: Seq<char>) -> bool {
    forall|i: int| 0 <= i < s.len() ==> is_whitespace(#[trigger] s[i])
}

/// Leading white space can be dropped position by position.
pub proof fn lemma_trim_start_skips(s: Seq<char>, a: int)
    requires
        0 <= a <= s.len(),
        is_blank(s.take(a)),
    ensures
        trim_start(s) == trim_start(s.skip(a)),
    decreases a,
{
    if a > 0 {
        assert(s.take(a)[0] == s[0]);
        assert forall|i: int| 0 <= i < a - 1 implies is_whitespace(
            #[trigger] s.drop_first().take(a - 1)[i],
        ) by {
            assert(s.take(a)[i + 1] == s[i + 1]);
        }
        lemma_trim_start_skips(s.drop_first(), a - 1);
        assert(s.drop_first().skip(a - 1) =~= s.skip(a));
    } else {
        assert(s.skip(0) =~= s);
    }
}

/// Trailing white space can be dropped position by position.
pub proof fn lemma_trim_end_takes(s: Seq<char>, b: int)
    requires
        0 <= b <= s.len(),
        is_blank(s.skip(b)),
    ensures
        trim_end(s) == trim_end(s.take(b)),
    decreases s.len() - b,
{
    if b < s.len() {
        assert(s.skip(b)[s.len() - 1 - b] == s.last());
        assert forall|i: int| 0 <= i < s.len() - 1 - b implies is_whitespace(
            #[trigger] s.drop_last().skip(b)[i],
        ) by {
            assert(s.skip(b)[i] == s[b + i]);
        }
        lemma_trim_end_takes(s.drop_last(), b);
        assert(s.drop_last().take(b) =~= s.take(b));
    } else {
        assert(s.take(b) =~= s);
    }
}

/// Trimming keeps exactly the part between the first and the last character
/// that is not white space.
pub proof fn lemma_trim_is_subrange(s: Seq<char>, a: int, b: int)
    requires
        0 <= a <= b <= s.len(),
        is_blank(s.take(a)),
        is_blank(s.skip(b)),
        is_trimmed(s.subrange(a, b)),
    ensures
        trim(s) == s.subrange(a, b),
{
    if a < b {
        lemma_trim_start_skips(s, a);
        let rest = s.skip(a);
        assert(s.subrange(a, b).first() == rest.first());
        assert(rest.skip(b - a) =~= s.skip(b));
        lemma_trim_end_takes(rest, b - a);
        assert(rest.take(b - a) =~= s.subrange(a, b));
        assert(s.subrange(a, b).last() == rest.take(b - a).last());
    } else {
        let n = s.len() as int;
        assert forall|i: int| 0 <= i < n implies is_whitespace(#[trigger] s.take(n)[i]) by {
            if i < a {
                assert(s.take(a)[i] == s[i]);
            } else {
                assert(s.skip(b)[i - b] == s[i]);
            }
        }
        lemma_trim_start_skips(s, n);
        assert(s.skip(n) =~= Seq::<char>::empty());
        assert(s.subrange(a, b) =~= Seq::<char>::empty());
    }
}

/// The places between which trimming keeps a text: after the leading and
/// before the trailing white space.
pub open spec fn trim_span(s: Seq<char>) -> (int, int) {
    let a = s.len() - trim_start(s).len();
    (a, a + trim(s).len())
}

/// What trimming keeps is a part of the text, with nothing but white space
/// around it and none at its own ends.
pub proof fn lemma_trim_keeps_part(s: Seq<char>)
    ensures
        0 <= trim_span(s).0 <= trim_span(s).1 <= s.len(),
        trim(s) == s.subrange(trim_span(s).0, trim_span(s).1),
        is_blank(s.take(trim_span(s).0)),
        is_blank(s.skip(trim_span(s).1)),
        is_trimmed(trim(s)),
{
    lemma_trim_start_is_suffix(s);
    let a = s.len() - trim_start(s).len();
    let rest = trim_start(s);
    lemma_trim_end_is_prefix(rest);
    let b = a + trim(s).len();
    assert(trim(s) =~= s.subrange(a, b));
    assert forall|i: int| 0 <= i < s.len() - b implies is_whitespace(#[trigger] s.skip(b)[i]) by {
        assert(rest.skip(b - a)[i] == s[b + i]);
    }
    if trim(s).len() > 0 {
        assert(trim(s).first() == rest.first());
    }
}

/// Trimming at the start leaves a suffix, with white space alone before it
/// and none at its head.
pub proof fn lemma_trim_start_is_suffix(s: Seq<char>)
    ensures
        trim_start(s).len() <= s.len(),
        trim_start(s) == s.skip(s.len() - trim_start(s).len()),
        is_blank(s.take(s.len() - trim_start(s).len())),
        trim_start(s).len() > 0 ==> !is_whitespace(trim_start(s).first()),
    decreases s.len(),
{
    if s.len() > 0 && is_whitespace(s.first()) {
        let rest = s.drop_first();
        lemma_trim_start_is_suffix(rest);
        let cut = rest.len() - trim_start(rest).len();
        assert(rest.skip(cut) =~= s.skip(cut + 1));
        assert forall|i: int| 0 <= i < cut + 1 implies is_whitespace(
            #[trigger] s.take(cut + 1)[i],
        ) by {
            if i > 0 {
                assert(rest.take(cut)[i - 1] == s[i]);
            }
        }
    } else {
        assert(s.skip(0) =~= s);
    }
}

/// Trimming at the end leaves a prefix, with white space alone behind it
/// and none at its tail.
pub proof fn lemma_trim_end_is_prefix(s: Seq<char>)
    ensures
        trim_end(s).len() <= s.len(),
        trim_end(s) == s.take(trim_end(s).len() as int),
        is_blank(s.skip(trim_end(s).len() as int)),
        trim_end(s).len() > 0 ==> !is_whitespace(trim_end(s).last()),
    decreases s.len(),
{
    if s.len() > 0 && is_whitespace(s.last()) {
        let rest = s.drop_last();
        lemma_trim_end_is_prefix(rest);
        let cut = trim_end(rest).len() as int;
        assert(rest.take(cut) =~= s.take(cut));
        assert forall|i: int| 0 <= i < s.len() - cut implies is_whitespace(
            #[trigger] s.skip(cut)[i],
        ) by {
            if i < s.len() - cut - 1 {
                assert(rest.skip(cut)[i] == s[cut + i]);
            }
        }
    } else {
        assert(s.take(s.len() as int) =~= s);
    }
}

/// A trimmed text is what trimming gives back unchanged.
pub proof fn lemma_trim_of_trimmed(s: Seq<char>)
    requires
        is_trimmed(s),
    ensures
        trim(s) == s,
{
    assert(s.take(0) =~= Seq::<char>::empty());
    assert(s.skip(s.len() as int) =~= Seq::<char>::empty());
    assert(s.subrange(0, s.len() as int) =~= s);
    lemma_trim_is_subrange(s, 0, s.len() as int);
}

/// Decodes a string slice into its characters.
pub fn chars_of(s: &str) -> (chars: Vec<char>)
    ensures
        chars@ == s@,
{
    broadcast use vstd::string::group_string_axioms;

    let mut chars: Vec<char> = Vec::new();
    let mut rest = s.chars();
    loop
        invariant
            rest.obeys_prophetic_iter_laws(),
            rest.decrease() is Some,
            chars@ + rest.remaining() == s@,
        ensures
            chars@ == s@,
        decreases rest.decrease()->0,
    {
        match rest.next() {
            Some(c) => {
                chars.push(c);
                assert(chars@ + rest.remaining() =~= s@);
            },
            None => {
                assert(chars@ + rest.remaining() =~= chars@);
                break ;
            },
        }
    }
    chars
}

/// `String::push` appends the character to the end of the string.
pub assume_specification[ String::push ](s: &mut String, ch: char)
    ensures
        final(s)@ == old(s)@.push(ch),
;

/// Builds the string that holds the given characters.
pub fn text_of(chars: &[char]) -> (s: String)
    ensures
        s@ == chars@,
{
    let mut s = String::new();
    let mut i: usize = 0;
    while i < chars.len()
        invariant
            i <= chars.len(),
            s@ == chars@.take(i as int),
        decreases chars.len() - i,
    {
        s.push(chars[i]);
        i = i + 1;
        assert(s@ =~= chars@.take(i as int));
    }
    assert(chars@.take(i as int) =~= chars@);
    s
}

/// The part of a text that trimming keeps.
pub fn trimmed(s: &[char]) -> (kept: &[char])
    ensures
        kept@ == trim(s@),
{
    let mut a: usize = 0;
    while a < s.len() && is_space(s[a])
        invariant
            a <= s.len(),
            is_blank(s@.take(a as int)),
        decreases s.len() - a,
    {
        a = a + 1;
    }
    let mut b: usize = s.len();
    while a < b && is_space(s[b - 1])
        invariant
            a <= b <= s.len(),
            is_blank(s@.skip(b as int)),
        decreases b - a,
    {
        proof {
            assert forall|i: int| 0 <= i < s.len() - (b - 1) implies is_whitespace(
                #[trigger] s@.skip(b - 1)[i],
            ) by {
                if i > 0 {
                    assert(s@.skip(b as int)[i - 1] == s@[b + i - 1]);
                }
            }
        }
        b = b - 1;
    }
    proof {
        let kept = s@.subrange(a as int, b as int);
        if a < b {
            assert(kept.first() == s@[a as int]);
            assert(kept.last() == s@[b - 1]);
        }
        lemma_trim_is_subrange(s@, a as int, b as int);
    }
    vstd::slice::slice_subrange(s, a, b)
}

/// Tells whether a text begins with the given prefix.
pub fn starts_with(s: &[char], prefix: &[char]) -> (b: bool)
    ensures
        b == prefix@.is_prefix_of(s@),
{
    if prefix.len() > s.len() {
        return false;
    }
    let mut i: usize = 0;
    while i < prefix.len()
        invariant
            i <= prefix.len() <= s.len(),
            forall|j: int| 0 <= j < i ==> prefix@[j] == s@[j],
        decreases prefix.len() - i,
    {
        if prefix[i] != s[i] {
            assert(s@.subrange(0, prefix.len() as int)[i as int] != prefix@[i as int]);
            return false;
        }
        i = i + 1;
    }
    assert(prefix@ =~= s@.subrange(0, prefix.len() as int));
    true
}

/// Tells whether a text ends with the given suffix.
pub fn ends_with(s: &[char], suffix: &[char]) -> (b: bool)
    ensures
        b == suffix@.is_suffix_of(s@),
{
    if suffix.len() > s.len() {
        return false;
    }
    let shift: usize = s.len() - suffix.len();
    let mut i: usize = 0;
    while i < suffix.len()
        invariant
            i <= suffix.len() <= s.len(),
            shift == s.len() - suffix.len(),
            forall|j: int| 0 <= j < i ==> suffix@[j] == s@[shift + j],
        decreases suffix.len() - i,
    {
        if suffix[i] != s[shift + i] {
            assert(s@.subrange(shift as int, s.len() as int)[i as int] != suffix@[i as int]);
            return false;
        }
        i = i + 1;
    }
    assert(suffix@ =~= s@.subrange(shift as int, s.len() as int));
    true
}

/// Finds the first place at which a character stands in a text.
pub fn position(s: &[char], needle: char) -> (at: Option<usize>)
    ensures
        match at {
            Some(i) => s@.index_of_first(needle) == Some(i as int),
            None => s@.index_of_first(needle) is None,
        },
{
    let mut i: usize = 0;
    while i < s.len()
        invariant
            i <= s.len(),
            forall|j: int| 0 <= j < i ==> s@[j] != needle,
        decreases s.len() - i,
    {
        if s[i] == needle {
            proof {
                assert(s@[i as int] == needle && s@.contains(needle));
                s@.index_of_first_ensures(needle);
            }
            return Some(i);
        }
        i = i + 1;
    }
    proof {
        s@.index_of_first_ensures(needle);
    }
    None
}

/// Finds the last place at which a character stands in a text.
pub fn last_position(s: &[char], needle: char) -> (at: Option<usize>)
    ensures
        match at {
            Some(i) => s@.index_of_last(needle) == Some(i as int),
            None => s@.index_of_last(needle) is None,
        },
{
    let mut i: usize = s.len();
    while i > 0
        invariant
            i <= s.len(),
            forall|j: int| i <= j < s.len() ==> s@[j] != needle,
        decreases i,
    {
        if s[i - 1] == needle {
            proof {
                assert(s@[i - 1] == needle && s@.contains(needle));
                s@.index_of_last_ensures(needle);
            }
            return Some(i - 1);
        }
        i = i - 1;
    }
    proof {
        s@.index_of_last_ensures(needle);
    }
    None
}

/// Tells whether a string is made of white space alone.
pub fn is_blank_text(s: &str) -> (blank: bool)
    ensures
        blank == is_blank(s@),
{
    let chars = chars_of(s);
    let mut i: usize = 0;
    while i < chars.len()
        invariant
            i <= chars.len(),
            chars@ == s@,
            forall|k: int| 0 <= k < i ==> is_whitespace(#[trigger] chars@[k]),
        decreases chars.len() - i,
    {
        if !is_space(chars[i]) {
            assert(!is_whitespace(s@[i as int]));
            return false;
        }
        i = i + 1;
    }
    true
}

} // verus!
