//! Small text operations on views.
use vstd::prelude::*;

verus! {

/// Whether two texts are equal, character by character.
pub fn same_text(a: &str, b: &str) -> (res: bool)
    ensures
        res == (a@ == b@),
{
    let x = a.to_owned();
    let y = b.to_owned();
    x == y
}

/// `a` followed by `b`.
pub fn concat_text(a: &str, b: &str) -> (res: String)
    ensures
        res@ == a@ + b@,
{
    let mut out = a.to_owned();
    for ch in it: b.chars()
        invariant
            it.seq() == b@,
            out@ == a@ + b@.take(it.index() as int),
    {
        proof {
            assert(b@.take(it.index() + 1) == b@.take(it.index() as int).push(ch));
        }
        crate::analyzer::push_char(&mut out, ch);
    }
    assert(b@.take(b@.len() as int) == b@);
    out
}

} // verus!
