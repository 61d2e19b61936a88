//! Laws of the splitting model: text segments joined by any mix of the
//! four terminators split back into exactly those segments, however the
//! stream is later chunked into views; and each terminator shape is
//! classified the same wherever it stands.

use crate::model::{
    all_lines, is_mixed, is_term, lemma_all_lines_step, lemma_line_at, lemma_term_free_line,
    line_consumed, line_content, term_free, CARRIAGE_RETURN, LINE_FEED,
};
use vstd::prelude::*;

verus! {

/// One of the four terminator byte sequences.
pub open spec fn valid_term_seq(t: Seq<u8>) -> bool {
    ||| t == seq![LINE_FEED]
    ||| t == seq![CARRIAGE_RETURN]
    ||| t == seq![CARRIAGE_RETURN, LINE_FEED]
    ||| t == seq![LINE_FEED, CARRIAGE_RETURN]
}

/// `segs` and `terms` interleaved: each segment followed by its own
/// terminator.
pub open spec fn joined(segs: Seq<Seq<u8>>, terms: Seq<Seq<u8>>) -> Seq<u8>
    decreases segs.len(),
{
    if segs.len() == 0 {
        Seq::empty()
    } else {
        segs[0] + terms[0] + joined(segs.skip(1), terms.skip(1))
    }
}

/// A well-formed join, as read before some continuation `tail`: one
/// terminator after each segment, every segment terminator-free, every
/// terminator one of the four, and no one-byte terminator immediately
/// followed by its mixed partner — those two bytes would merge into one
/// two-byte terminator.
pub open spec fn wf_join(segs: Seq<Seq<u8>>, terms: Seq<Seq<u8>>, tail: Seq<u8>) -> bool {
    &&& segs.len() == terms.len()
    &&& (forall|i: int| 0 <= i < segs.len() ==> term_free(#[trigger] segs[i]))
    &&& (forall|i: int| 0 <= i < terms.len() ==> valid_term_seq(#[trigger] terms[i]))
    &&& (forall|i: int|
        0 <= i < terms.len() && (#[trigger] terms[i]).len() == 1 ==> {
            let rest = joined(segs.skip(i + 1), terms.skip(i + 1)) + tail;
            rest.len() == 0 || !is_mixed(terms[i][0], rest[0])
        })
}

/// Splitting a well-formed join peels off exactly its segments, whatever
/// mix of the four terminators joined them and whatever tail follows.
pub proof fn lemma_lines_of_join(segs: Seq<Seq<u8>>, terms: Seq<Seq<u8>>, tail: Seq<u8>)
    requires
        wf_join(segs, terms, tail),
    ensures
        all_lines(joined(segs, terms) + tail) == segs + all_lines(tail),
    decreases segs.len(),
{
    if segs.len() == 0 {
        assert(joined(segs, terms) + tail =~= tail);
        assert(segs + all_lines(tail) =~= all_lines(tail));
    } else {
        let seg = segs[0];
        let t = terms[0];
        let rest = joined(segs.skip(1), terms.skip(1)) + tail;
        let whole = joined(segs, terms) + tail;
        assert(wf_join(segs.skip(1), terms.skip(1), tail)) by {
            assert forall|i: int| 0 <= i < segs.skip(1).len() implies term_free(
                #[trigger] segs.skip(1)[i],
            ) by {
                assert(segs.skip(1)[i] == segs[i + 1]);
            }
            assert forall|i: int| 0 <= i < terms.skip(1).len() implies valid_term_seq(
                #[trigger] terms.skip(1)[i],
            ) by {
                assert(terms.skip(1)[i] == terms[i + 1]);
            }
            assert forall|i: int|
                0 <= i < terms.skip(1).len() && (#[trigger] terms.skip(1)[i]).len()
                    == 1 implies ({
                let r2 = joined(segs.skip(1).skip(i + 1), terms.skip(1).skip(i + 1)) + tail;
                r2.len() == 0 || !is_mixed(terms.skip(1)[i][0], r2[0])
            }) by {
                assert(terms.skip(1)[i] == terms[i + 1]);
                assert(segs.skip(1).skip(i + 1) =~= segs.skip(i + 2));
                assert(terms.skip(1).skip(i + 1) =~= terms.skip(i + 2));
                assert(0 <= i + 1 < terms.len() && terms[i + 1].len() == 1);
            }
        }
        lemma_lines_of_join(segs.skip(1), terms.skip(1), tail);
        let consumed = seg.len() + t.len();
        if t.len() == 1 {
            let tb = t[0];
            assert(is_term(tb));
            assert(whole =~= seg + seq![tb] + rest);
            assert(terms[0].len() == 1);
            lemma_line_at(seg, tb, rest);
        } else {
            let tb0 = t[0];
            let tb1 = t[1];
            assert(is_mixed(tb0, tb1));
            assert(whole =~= seg + seq![tb0] + (seq![tb1] + rest));
            lemma_line_at(seg, tb0, seq![tb1] + rest);
            assert((seq![tb1] + rest)[0] == tb1);
        }
        assert(line_content(whole) == seg);
        assert(line_consumed(whole) == consumed);
        assert(whole.skip(consumed as int) =~= rest);
        assert(all_lines(whole) == seq![seg] + (segs.skip(1) + all_lines(tail)));
        assert(seq![seg] + (segs.skip(1) + all_lines(tail)) =~= segs + all_lines(tail));
    }
}

/// A terminator-free, non-empty stream is one single line.
pub proof fn lemma_single_line(s: Seq<u8>)
    requires
        term_free(s),
        s.len() > 0,
    ensures
        all_lines(s) == seq![s],
{
    lemma_term_free_line(s);
    assert(s.skip(s.len() as int) =~= Seq::<u8>::empty());
    assert(seq![s] + all_lines(Seq::<u8>::empty()) =~= seq![s]);
}

/// The round trip with every segment terminated: joining terminator-free
/// segments with any well-formed mix of the four terminators and then
/// splitting the result into lines gives back exactly the segments — in
/// particular, a terminator at the very end of the stream opens no
/// trailing empty line.
pub proof fn lemma_lines_round_trip(segs: Seq<Seq<u8>>, terms: Seq<Seq<u8>>)
    requires
        wf_join(segs, terms, Seq::empty()),
    ensures
        all_lines(joined(segs, terms)) == segs,
{
    lemma_lines_of_join(segs, terms, Seq::empty());
    assert(joined(segs, terms) + Seq::<u8>::empty() =~= joined(segs, terms));
    assert(segs + all_lines(Seq::<u8>::empty()) =~= segs);
}

/// The round trip with the final segment unterminated: the same, with the
/// last, non-empty segment ending at end of stream instead of at a
/// terminator.
pub proof fn lemma_lines_round_trip_unterminated(
    segs: Seq<Seq<u8>>,
    terms: Seq<Seq<u8>>,
    last: Seq<u8>,
)
    requires
        wf_join(segs, terms, last),
        term_free(last),
        last.len() > 0,
    ensures
        all_lines(joined(segs, terms) + last) == segs.push(last),
{
    lemma_lines_of_join(segs, terms, last);
    lemma_single_line(last);
    assert(segs + seq![last] =~= segs.push(last));
}

/// A repeated identical terminator — `\r\r` or `\n\n` — produces exactly
/// one empty line between its two occurrences. The side condition keeps
/// the second occurrence from merging with the first byte of `rest` into
/// a mixed pair.
pub proof fn lemma_repeated_terminator(p: Seq<u8>, t: u8, rest: Seq<u8>)
    requires
        term_free(p),
        is_term(t),
        rest.len() == 0 || !is_mixed(t, rest[0]),
    ensures
        all_lines(p + seq![t, t] + rest) == seq![p, Seq::<u8>::empty()] + all_lines(rest),
{
    let s1 = p + seq![t, t] + rest;
    let s2 = seq![t] + rest;
    assert(s1 =~= p + seq![t] + s2);
    lemma_line_at(p, t, s2);
    assert(s2[0] == t);
    assert(!is_mixed(t, t));
    assert(line_content(s1) == p);
    assert(line_consumed(s1) == p.len() + 1);
    assert(s1.skip(p.len() + 1 as int) =~= s2);
    assert(s2 =~= Seq::<u8>::empty() + seq![t] + rest);
    lemma_line_at(Seq::empty(), t, rest);
    assert(line_content(s2) =~= Seq::<u8>::empty());
    assert(line_consumed(s2) == 1);
    assert(s2.skip(1) =~= rest);
    lemma_all_lines_step(s1);
    lemma_all_lines_step(s2);
    assert(all_lines(s2) == seq![Seq::<u8>::empty()] + all_lines(rest));
    assert(all_lines(s1) == seq![p] + (seq![Seq::<u8>::empty()] + all_lines(rest)));
    assert(seq![p] + (seq![Seq::<u8>::empty()] + all_lines(rest)) =~= seq![p, Seq::<u8>::empty()]
        + all_lines(rest));
}

/// A mixed pair — `\r\n` or `\n\r` — is one terminator: it produces no
/// empty line between its two bytes.
pub proof fn lemma_mixed_terminator(p: Seq<u8>, a: u8, b: u8, rest: Seq<u8>)
    requires
        term_free(p),
        is_mixed(a, b),
    ensures
        all_lines(p + seq![a, b] + rest) == seq![p] + all_lines(rest),
{
    let s1 = p + seq![a, b] + rest;
    assert(s1 =~= p + seq![a] + (seq![b] + rest));
    lemma_line_at(p, a, seq![b] + rest);
    assert((seq![b] + rest)[0] == b);
    assert(line_content(s1) == p);
    assert(line_consumed(s1) == p.len() + 2);
    assert(s1.skip(p.len() + 2 as int) =~= rest);
    assert(all_lines(s1) == seq![p] + all_lines(rest));
}

/// A trailing terminator at true end of stream closes the final line and
/// produces no trailing empty line after it.
pub proof fn lemma_trailing_terminator(p: Seq<u8>, term: Seq<u8>)
    requires
        term_free(p),
        valid_term_seq(term),
    ensures
        all_lines(p + term) == seq![p],
{
    let s = p + term;
    if term.len() == 1 {
        assert(s =~= p + seq![term[0]] + Seq::<u8>::empty());
        lemma_line_at(p, term[0], Seq::empty());
        assert(line_consumed(s) == p.len() + 1);
    } else {
        assert(is_mixed(term[0], term[1]));
        assert(s =~= p + seq![term[0]] + seq![term[1]]);
        lemma_line_at(p, term[0], seq![term[1]]);
        assert((seq![term[1]])[0] == term[1]);
        assert(line_consumed(s) == p.len() + 2);
    }
    assert(line_content(s) == p);
    assert(s.skip(line_consumed(s) as int) =~= Seq::<u8>::empty());
    assert(seq![p] + all_lines(Seq::<u8>::empty()) =~= seq![p]);
}

} // verus!
