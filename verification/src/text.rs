//! Comparing texts character by character.

use vstd::prelude::*;
use vstd::std_specs::iter::IteratorSpec;

verus! {

broadcast use vstd::string::group_string_axioms;

/// Tells whether two texts hold the same characters.
pub fn same_text(a: &str, b: &str) -> (r: bool)
    ensures
        r == (a@ == b@),
{
    let mut others = b.chars();
    assert(a@.take(0) =~= b@.take(0) && b@.skip(0) =~= b@);
    for c in it: a.chars()
        invariant
            it.seq() == a@,
            others.remaining() == b@.skip(it.index() as int),
            it.index() <= b@.len(),
            a@.take(it.index() as int) == b@.take(it.index() as int),
    {
        let ghost i = it.index() as int;
        proof {
            assert(b@.skip(i).len() > 0 ==> b@.skip(i).drop_first() =~= b@.skip(i + 1));
        }
        match others.next() {
            None => {
                return false;
            },
            Some(d) => {
                assert(b@.skip(i)[0] == d);
                if c != d {
                    assert(a@[i] != b@[i]);
                    return false;
                }
            },
        }
        assert(a@.take(i + 1) =~= a@.take(i).push(c));
        assert(b@.take(i + 1) =~= b@.take(i).push(c));
    }
    match others.next() {
        None => {
            assert(a@ =~= a@.take(a@.len() as int) && b@ =~= b@.take(b@.len() as int));
            true
        },
        Some(_) => false,
    }
}

/// Whether `a` stands before `b` when texts are ordered character by
/// character, by code point: at the first place where they differ the
/// smaller character decides, and a text stands before every longer text
/// that begins with it.
pub open spec fn text_before(a: Seq<char>, b: Seq<char>) -> bool
    decreases a.len(),
{
    if b.len() == 0 {
        false
    } else if a.len() == 0 {
        true
    } else if a[0] == b[0] {
        text_before(a.drop_first(), b.drop_first())
    } else {
        (a[0] as u32) < (b[0] as u32)
    }
}

/// No text stands before itself.
pub proof fn lemma_text_before_irreflexive(a: Seq<char>)
    ensures
        !text_before(a, a),
    decreases a.len(),
{
    if a.len() > 0 {
        lemma_text_before_irreflexive(a.drop_first());
    }
}

/// If `y` does not stand after `x`, and `z` does, then `y` does not stand
/// after `z`.
pub proof fn lemma_text_before_chain(x: Seq<char>, y: Seq<char>, z: Seq<char>)
    requires
        !text_before(x, y),
        text_before(x, z),
    ensures
        !text_before(z, y),
    decreases x.len(),
{
    if y.len() > 0 && x.len() > 0 && z.len() > 0 {
        if x[0] == z[0] && x[0] == y[0] {
            lemma_text_before_chain(x.drop_first(), y.drop_first(), z.drop_first());
        }
    }
}

/// Tells whether `a` stands before `b`, see [`text_before`].
pub fn stands_before(a: &str, b: &str) -> (r: bool)
    ensures
        r == text_before(a@, b@),
{
    let mut others = b.chars();
    assert(a@.skip(0) =~= a@ && b@.skip(0) =~= b@);
    for c in it: a.chars()
        invariant
            it.seq() == a@,
            others.remaining() == b@.skip(it.index() as int),
            it.index() <= b@.len(),
            text_before(a@, b@) == text_before(
                a@.skip(it.index() as int),
                b@.skip(it.index() as int),
            ),
    {
        let ghost i = it.index() as int;
        proof {
            assert(a@.skip(i)[0] == c);
            assert(a@.skip(i).drop_first() =~= a@.skip(i + 1));
            assert(b@.skip(i).len() > 0 ==> b@.skip(i).drop_first() =~= b@.skip(i + 1));
        }
        match others.next() {
            None => {
                return false;
            },
            Some(d) => {
                assert(b@.skip(i)[0] == d);
                if c != d {
                    return (c as u32) < (d as u32);
                }
            },
        }
    }
    match others.next() {
        None => false,
        Some(_) => true,
    }
}

} // verus!
