//! The order of texts: character by character, a shorter text before its
//! extensions. Timestamps and release names are ordered by it.

use vstd::prelude::*;
use vstd::std_specs::iter::IteratorSpec;

verus! {

/// How a text stands to another one in the order of texts.
#[derive(Clone, Copy, Debug, PartialEq, Eq, Structural)]
pub enum TextOrder {
    Before,
    Same,
    After,
}

/// `a` comes strictly before `b`: at the first place where they differ `a`
/// has the smaller character, or `a` ends there and `b` goes on.
pub open spec fn precedes(a: Seq<char>, b: Seq<char>) -> bool
    decreases a.len(),
{
    if b.len() == 0 {
        false
    } else if a.len() == 0 {
        true
    } else if a.first() == b.first() {
        precedes(a.drop_first(), b.drop_first())
    } else {
        (a.first() as u32) < (b.first() as u32)
    }
}

/// `a` comes before `b` or is the same text.
pub open spec fn at_most(a: Seq<char>, b: Seq<char>) -> bool {
    !precedes(b, a)
}

/// The three-way comparison of two texts.
pub open spec fn order_of(a: Seq<char>, b: Seq<char>) -> TextOrder {
    if a == b {
        TextOrder::Same
    } else if precedes(a, b) {
        TextOrder::Before
    } else {
        TextOrder::After
    }
}

/// No text comes before itself.
pub proof fn lemma_precedes_irreflexive(a: Seq<char>)
    ensures
        !precedes(a, a),
    decreases a.len(),
{
    if a.len() > 0 {
        lemma_precedes_irreflexive(a.drop_first());
    }
}

/// Of two different texts exactly one comes before the other.
pub proof fn lemma_precedes_total(a: Seq<char>, b: Seq<char>)
    ensures
        a != b ==> (precedes(a, b) <==> !precedes(b, a)),
        a == b ==> !precedes(a, b) && !precedes(b, a),
    decreases a.len(),
{
    if a == b {
        lemma_precedes_irreflexive(a);
    } else if a.len() > 0 && b.len() > 0 {
        if a.first() == b.first() {
            if a.drop_first() == b.drop_first() {
                assert(a =~= seq![a.first()] + a.drop_first());
                assert(b =~= seq![b.first()] + b.drop_first());
            }
            lemma_precedes_total(a.drop_first(), b.drop_first());
        } else {
            vstd::utf8::char_u32_cast(a.first(), a.first() as u32);
            vstd::utf8::char_u32_cast(b.first(), b.first() as u32);
        }
    } else {
        assert(a.len() == 0 && b.len() == 0 ==> a =~= b);
    }
}

/// The order of texts is transitive.
pub proof fn lemma_precedes_transitive(a: Seq<char>, b: Seq<char>, c: Seq<char>)
    requires
        precedes(a, b),
        precedes(b, c),
    ensures
        precedes(a, c),
    decreases a.len(),
{
    if a.len() > 0 && a.first() == b.first() && b.first() == c.first() {
        lemma_precedes_transitive(a.drop_first(), b.drop_first(), c.drop_first());
    }
}

/// What comes no later than a text that precedes `c` precedes `c` too.
pub proof fn lemma_at_most_then_precedes(a: Seq<char>, b: Seq<char>, c: Seq<char>)
    requires
        at_most(a, b),
        precedes(b, c),
    ensures
        precedes(a, c),
{
    lemma_precedes_total(a, b);
    if a != b {
        lemma_precedes_transitive(a, b, c);
    }
}

/// What `a` precedes comes before everything that is no earlier.
pub proof fn lemma_precedes_then_at_most(a: Seq<char>, b: Seq<char>, c: Seq<char>)
    requires
        precedes(a, b),
        at_most(b, c),
    ensures
        precedes(a, c),
{
    lemma_precedes_total(b, c);
    if b != c {
        lemma_precedes_transitive(a, b, c);
    }
}

/// Two texts that begin with the same character compare as their rests do.
pub proof fn lemma_order_of_rests(a: Seq<char>, b: Seq<char>)
    requires
        a.len() > 0,
        b.len() > 0,
        a.first() == b.first(),
    ensures
        order_of(a, b) == order_of(a.drop_first(), b.drop_first()),
{
    assert(a =~= seq![a.first()] + a.drop_first());
    assert(b =~= seq![b.first()] + b.drop_first());
}

/// Compares two strings in the order of texts.
pub fn text_order(a: &str, b: &str) -> (r: TextOrder)
    ensures
        r == order_of(a@, b@),
{
    broadcast use vstd::string::group_string_axioms;

    let mut rest_a = a.chars();
    let mut rest_b = b.chars();
    loop
        invariant
            rest_a.obeys_prophetic_iter_laws(),
            rest_b.obeys_prophetic_iter_laws(),
            rest_a.decrease() is Some,
            rest_b.decrease() is Some,
            order_of(a@, b@) == order_of(rest_a.remaining(), rest_b.remaining()),
        decreases rest_a.decrease()->0,
    {
        let ghost before_a = rest_a.remaining();
        let ghost before_b = rest_b.remaining();
        let x = rest_a.next();
        let y = rest_b.next();
        match (x, y) {
            (None, None) => {
                assert(before_a =~= before_b);
                return TextOrder::Same;
            },
            (None, Some(_)) => {
                return TextOrder::Before;
            },
            (Some(_), None) => {
                return TextOrder::After;
            },
            (Some(p), Some(q)) => {
                if p != q {
                    if (p as u32) < (q as u32) {
                        return TextOrder::Before;
                    } else {
                        return TextOrder::After;
                    }
                }
                proof {
                    lemma_order_of_rests(before_a, before_b);
                }
            },
        }
    }
}

} // verus!
