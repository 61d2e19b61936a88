//! The mathematical model of line splitting: what one scan of a byte
//! stream yields as content, and how many bytes it consumes.

use vstd::prelude::*;

verus! {

/// The line feed byte, `\n`.
pub const LINE_FEED: u8 = 10;

/// The carriage return byte, `\r`.
pub const CARRIAGE_RETURN: u8 = 13;

/// A line terminator byte: line feed or carriage return.
pub open spec fn is_term(b: u8) -> bool {
    b == LINE_FEED || b == CARRIAGE_RETURN
}

/// Two bytes that together form one mixed two-byte terminator:
/// one carriage return and one line feed, in either order.
pub open spec fn is_mixed(a: u8, b: u8) -> bool {
    is_term(a) && is_term(b) && a != b
}

/// No byte of `s` is a terminator.
pub open spec fn term_free(s: Seq<u8>) -> bool {
    forall|i: int| 0 <= i < s.len() ==> !is_term(#[trigger] s[i])
}

/// How many bytes one scan of `s` consumes: the first line's content plus
/// its terminator. A mixed pair counts as one two-byte terminator, any
/// other terminator byte as a one-byte terminator, and the final line of
/// the stream may have no terminator at all. Zero exactly on an empty
/// stream.
pub open spec fn line_consumed(s: Seq<u8>) -> nat
    decreases s.len(),
{
    if s.len() == 0 {
        0
    } else if is_term(s[0]) {
        if s.len() >= 2 && is_mixed(s[0], s[1]) {
            2
        } else {
            1
        }
    } else {
        (1 + line_consumed(s.skip(1))) as nat
    }
}

/// The first line of `s`: its longest terminator-free prefix.
pub open spec fn line_content(s: Seq<u8>) -> Seq<u8>
    decreases s.len(),
{
    if s.len() == 0 || is_term(s[0]) {
        Seq::empty()
    } else {
        seq![s[0]] + line_content(s.skip(1))
    }
}

/// Every line of `s` in order, terminators stripped. A terminator at the
/// very end of the stream closes its line without opening a further empty
/// one.
pub open spec fn all_lines(s: Seq<u8>) -> Seq<Seq<u8>>
    decreases s.len(),
{
    if s.len() == 0 {
        Seq::empty()
    } else {
        proof {
            lemma_line_bounds(s);
        }
        seq![line_content(s)] + all_lines(s.skip(line_consumed(s) as int))
    }
}

/// A scan consumes no more than the stream holds, and on a non-empty
/// stream it consumes at least one byte; the content never exceeds what
/// was consumed.
pub proof fn lemma_line_bounds(s: Seq<u8>)
    ensures
        line_consumed(s) <= s.len(),
        s.len() > 0 ==> 1 <= line_consumed(s),
        line_content(s).len() <= line_consumed(s),
    decreases s.len(),
{
    if s.len() == 0 {
    } else if is_term(s[0]) {
    } else {
        lemma_line_bounds(s.skip(1));
    }
}

/// A terminator-free stream is one single line: all of it is content, all
/// of it is consumed.
pub proof fn lemma_term_free_line(s: Seq<u8>)
    requires
        term_free(s),
    ensures
        line_content(s) == s,
        line_consumed(s) == s.len(),
    decreases s.len(),
{
    if s.len() > 0 {
        assert(term_free(s.skip(1))) by {
            assert(forall|i: int|
                0 <= i < s.skip(1).len() ==> s.skip(1)[i] == s[i + 1] && !is_term(s[i + 1]));
        }
        lemma_term_free_line(s.skip(1));
        assert(seq![s[0]] + s.skip(1) =~= s);
    }
}

/// Concatenating terminator-free streams yields a terminator-free stream.
pub proof fn lemma_term_free_concat(a: Seq<u8>, b: Seq<u8>)
    requires
        term_free(a),
        term_free(b),
    ensures
        term_free(a + b),
{
    assert forall|i: int| 0 <= i < (a + b).len() implies !is_term((a + b)[i]) by {
        if i < a.len() {
            assert((a + b)[i] == a[i]);
        } else {
            assert((a + b)[i] == b[i - a.len()]);
        }
    }
}

/// The first line of `p + [t] + rest` for terminator-free `p` and a
/// terminator byte `t`: the content is `p`, and the consumed span runs
/// through `t` — and through the byte after it too, exactly when the two
/// form a mixed pair.
pub proof fn lemma_line_at(p: Seq<u8>, t: u8, rest: Seq<u8>)
    requires
        term_free(p),
        is_term(t),
    ensures
        line_content(p + seq![t] + rest) == p,
        line_consumed(p + seq![t] + rest) == p.len() + (if rest.len() > 0 && is_mixed(
            t,
            rest[0],
        ) {
            2nat
        } else {
            1nat
        }),
    decreases p.len(),
{
    let s = p + seq![t] + rest;
    if p.len() == 0 {
        assert(s[0] == t);
        if s.len() >= 2 {
            assert(s[1] == rest[0]);
            assert(rest.len() > 0);
        } else {
            assert(rest.len() == 0);
        }
        assert(line_content(s) =~= p);
    } else {
        assert(s[0] == p[0]);
        assert(!is_term(p[0]));
        assert(term_free(p.skip(1))) by {
            assert(forall|i: int|
                0 <= i < p.skip(1).len() ==> p.skip(1)[i] == p[i + 1] && !is_term(p[i + 1]));
        }
        lemma_line_at(p.skip(1), t, rest);
        assert(s.skip(1) =~= p.skip(1) + seq![t] + rest);
        assert(seq![p[0]] + p.skip(1) =~= p);
        assert(line_content(s) =~= seq![s[0]] + line_content(s.skip(1)));
    }
}

/// Peeling one line off a non-empty stream: `all_lines` is that line's
/// content followed by the lines of what the scan left unconsumed.
pub proof fn lemma_all_lines_step(s: Seq<u8>)
    requires
        s.len() > 0,
    ensures
        all_lines(s) == seq![line_content(s)] + all_lines(s.skip(line_consumed(s) as int)),
{
}

} // verus!
