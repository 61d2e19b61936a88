//! Byte-level helpers of the line scanner: terminator classification and
//! the fast search for the first terminator within one view.

use crate::model::{is_term, term_free, CARRIAGE_RETURN, LINE_FEED};
use vstd::prelude::*;

verus! {

/// Whether `b` is a line terminator byte.
pub fn is_terminator_byte(b: u8) -> (r: bool)
    ensures
        r == is_term(b),
{
    b == LINE_FEED || b == CARRIAGE_RETURN
}

/// Relies on jetscii::Bytes::find: the index of the first byte of the
/// haystack that is in the searched-for set — here line feed and carriage
/// return — or None when no byte of the haystack is.
#[verifier::external_body]
pub(crate) fn find_terminator(haystack: &Vec<u8>) -> (r: Option<usize>)
    ensures
        (r matches Some(i) ==> i < haystack@.len() && is_term(haystack@[i as int]) && term_free(
            haystack@.take(i as int),
        )),
        (r is None ==> term_free(haystack@)),
{
    jetscii::Bytes::new(
        [LINE_FEED, CARRIAGE_RETURN, 0, 0, 0, 0, 0, 0, 0, 0, 0, 0, 0, 0, 0, 0],
        2,
        |b| is_terminator_byte(b),
    ).find(haystack)
}

/// Append the first `n` bytes of `src` to `dst`.
#[verifier::loop_isolation(false)]
pub(crate) fn append_prefix(dst: &mut Vec<u8>, src: &Vec<u8>, n: usize)
    requires
        n <= src@.len(),
    ensures
        final(dst)@ == old(dst)@ + src@.take(n as int),
{
    let mut i: usize = 0;
    while i < n
        invariant
            i <= n,
            dst@ =~= old(dst)@ + src@.take(i as int),
        decreases n - i,
    {
        dst.push(src[i]);
        proof {
            assert(dst@ =~= old(dst)@ + src@.take(i + 1));
        }
        i = i + 1;
    }
    proof {
        assert(dst@ =~= old(dst)@ + src@.take(n as int));
    }
}

} // verus!
