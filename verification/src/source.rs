//! The refillable, consumable byte source the scanner reads from, and an
//! in-memory instance of it.

use crate::lines::LinesAllIter;
use crate::scan::{append_prefix, find_terminator, is_terminator_byte};
use crate::model::{is_mixed, is_term, lemma_line_at, lemma_term_free_concat, lemma_term_free_line, line_consumed, line_content, term_free};
use vstd::prelude::*;

verus! {

/// std::io::Error, declared so that a source failure can be carried
/// through scanning and handed back to the caller exactly as the source
/// reported it; the scanner never looks inside one.
#[verifier::external_type_specification]
#[verifier::external_body]
pub struct ExIoError(std::io::Error);

/// What a refill attempt reports when it cannot produce a view.
pub enum FillError {
    /// A transient interruption: the refill may simply be tried again.
    Interrupted,
    /// Any other failure of the underlying source; it aborts the scan.
    Failed(std::io::Error),
}

/// A refillable, consumable byte source: `fill_buf` hands out a view of
/// the bytes currently available, and `consume` marks a prefix of that
/// view as read. Implementors promise nothing about where the boundaries
/// between successive views fall, so everything proved against this trait
/// holds for every way of chunking the stream.
pub trait NewLine: Sized {
    /// The bytes of the stream not yet consumed.
    spec fn remaining(&self) -> Seq<u8>;

    /// How many transient interruptions the source may still raise before
    /// its next successful refill. Each interrupted refill strictly
    /// decreases it: an interruption is transient precisely in that it
    /// cannot repeat forever, which is what lets a scan retry until the
    /// refill settles.
    spec fn interruptions(&self) -> nat;

    /// Whether the source can ever refuse a refill for good. A source for
    /// which this is false owes every refill a view, after at most its
    /// transient interruptions — scanning it always succeeds; one for
    /// which it is true may raise `FillError::Failed` at any refill.
    spec fn may_fail(&self) -> bool;

    /// A view of the currently available bytes: some prefix of
    /// `remaining()`, empty exactly at true end of stream (a source with
    /// bytes left blocks until it can hand at least one out).
    fn fill_buf(&mut self) -> (r: Result<Vec<u8>, FillError>)
        ensures
            final(self).remaining() == old(self).remaining(),
            final(self).may_fail() == old(self).may_fail(),
            (r matches Ok(v) ==> v@.is_prefix_of(final(self).remaining()) && (v@.len() == 0
                <==> final(self).remaining().len() == 0)),
            (r matches Err(e) ==> (e matches FillError::Interrupted ==> final(self).interruptions()
                < old(self).interruptions())),
            (r matches Err(e) ==> (e matches FillError::Failed(_) ==> old(self).may_fail())),
    ;

    /// Mark the first `amt` bytes of the most recently returned view as
    /// consumed.
    fn consume(&mut self, amt: usize)
        requires
            amt <= old(self).remaining().len(),
        ensures
            final(self).remaining() == old(self).remaining().skip(amt as int),
            final(self).may_fail() == old(self).may_fail(),
    ;

    /// Append the next line's content — terminator excluded — to `buf`
    /// and return how many source bytes were consumed: content plus
    /// terminator. Consuming zero bytes is the end-of-stream sentinel,
    /// and it is returned exactly when no bytes remain, so a fully
    /// consumed source keeps answering zero however often it is asked.
    /// A transient interruption of a refill is retried silently; any
    /// other refill failure aborts the scan and is handed back, with
    /// `buf` left holding whatever terminator-free prefix had been
    /// appended by then — and on a source that cannot fail the scan
    /// always succeeds.
    #[verifier::loop_isolation(false)]
    #[verifier::rlimit(100)]
    fn read_line_all(&mut self, buf: &mut Vec<u8>) -> (res: Result<usize, std::io::Error>)
        requires
            old(self).remaining().len() <= usize::MAX,
        ensures
            (res matches Ok(n) ==> {
                &&& n == line_consumed(old(self).remaining())
                &&& final(self).remaining() == old(self).remaining().skip(n as int)
                &&& final(buf)@ == old(buf)@ + line_content(old(self).remaining())
                &&& (n == 0 <==> old(self).remaining().len() == 0)
            }),
            (res matches Err(_) ==> exists|k: int, c: int|
                {
                    &&& 0 <= c <= k <= old(self).remaining().len()
                    &&& k - c <= 1
                    &&& final(self).remaining() == old(self).remaining().skip(k)
                    &&& final(buf)@ == old(buf)@ + old(self).remaining().take(c)
                    &&& term_free(old(self).remaining().take(c))
                }),
            final(self).may_fail() == old(self).may_fail(),
            !old(self).may_fail() ==> res is Ok,
    {
        let ghost s: Seq<u8> = old(self).remaining();
        let mut read: usize = 0;
        let mut prev: Option<u8> = None;
        loop
            invariant
                read <= s.len(),
                self.remaining() == s.skip(read as int),
                self.may_fail() == old(self).may_fail(),
                (match prev {
                    None => buf@ == old(buf)@ + s.take(read as int) && term_free(
                        s.take(read as int),
                    ),
                    Some(p) => read >= 1 && p == s[read - 1] && is_term(p) && buf@ == old(buf)@
                        + s.take(read - 1) && term_free(s.take(read - 1)),
                }),
            decreases s.len() - read, self.interruptions(),
        {
            let view: Vec<u8> = match self.fill_buf() {
                Ok(v) => v,
                Err(e) => {
                    match e {
                        FillError::Interrupted => {
                            continue;
                        },
                        FillError::Failed(io) => {
                            proof {
                                let k = read as int;
                                if prev is Some {
                                    assert({
                                        &&& 0 <= k - 1 <= k <= s.len()
                                        &&& self.remaining() == s.skip(k)
                                        &&& buf@ == old(buf)@ + s.take(k - 1)
                                        &&& term_free(s.take(k - 1))
                                    });
                                } else {
                                    assert({
                                        &&& 0 <= k <= k <= s.len()
                                        &&& self.remaining() == s.skip(k)
                                        &&& buf@ == old(buf)@ + s.take(k)
                                        &&& term_free(s.take(k))
                                    });
                                }
                            }
                            return Err(io);
                        },
                    }
                },
            };
            proof {
                assert(view@ =~= s.skip(read as int).take(view@.len() as int));
                assert(forall|j: int|
                    0 <= j < view@.len() ==> view@[j] == s[read + j] && s.skip(read as int)[j]
                        == s[read + j]);
            }
            match prev {
                Some(p) => {
                    // A terminator byte ended the previous view; classify
                    // it against the first byte now available, or against
                    // true end of stream.
                    proof {
                        assert(s =~= s.take(read - 1) + seq![s[read - 1]] + s.skip(read as int));
                    }
                    if view.len() == 0 {
                        // End of stream: the pending byte alone was the
                        // line's terminator.
                        proof {
                            assert(read == s.len());
                            lemma_line_at(s.take(read - 1), p, s.skip(read as int));
                            assert(s.skip(read as int).len() == 0);
                            assert(line_consumed(s) == read);
                            assert(line_content(s) == s.take(read - 1));
                        }
                        return Ok(read);
                    }
                    let c0 = view[0];
                    if is_terminator_byte(c0) && c0 != p {
                        // The pending byte and this one form one mixed
                        // two-byte terminator; consume its second half.
                        self.consume(1);
                        proof {
                            lemma_line_at(s.take(read - 1), p, s.skip(read as int));
                            assert(s.skip(read as int)[0] == s[read as int]);
                            assert(is_mixed(p, s[read as int]));
                            assert(line_consumed(s) == read + 1);
                            assert(self.remaining() =~= s.skip(read + 1));
                        }
                        return Ok(read + 1);
                    } else {
                        // The pending byte alone was the terminator; the
                        // new view starts the next line (a repeated
                        // identical terminator leaves an empty line
                        // between the two).
                        proof {
                            lemma_line_at(s.take(read - 1), p, s.skip(read as int));
                            assert(s.skip(read as int)[0] == s[read as int]);
                            assert(!is_mixed(p, s[read as int]));
                            assert(line_consumed(s) == read);
                        }
                        return Ok(read);
                    }
                },
                None => {
                    if view.len() == 0 {
                        // End of stream with nothing pending: whatever
                        // was appended is the final, unterminated line;
                        // zero more bytes consumed, and zero in all
                        // exactly when the stream was empty.
                        proof {
                            assert(read == s.len());
                            assert(s.take(read as int) =~= s);
                            lemma_term_free_line(s);
                        }
                        return Ok(read);
                    }
                    match find_terminator(&view) {
                        None => {
                            // No terminator in sight: take the whole view
                            // as content and keep scanning.
                            let n = view.len();
                            append_prefix(buf, &view, n);
                            self.consume(n);
                            proof {
                                lemma_term_free_concat(s.take(read as int), view@);
                                assert(s.take(read + n) =~= s.take(read as int) + view@);
                                assert(buf@ =~= old(buf)@ + s.take(read + n));
                                assert(self.remaining() =~= s.skip(read + n));
                            }
                            read = read + n;
                        },
                        Some(d) => {
                            append_prefix(buf, &view, d);
                            proof {
                                lemma_term_free_concat(s.take(read as int), view@.take(d as int));
                                assert(s.take(read + d) =~= s.take(read as int) + view@.take(
                                    d as int,
                                ));
                                assert(buf@ =~= old(buf)@ + s.take(read + d));
                                assert(is_term(s[read + d]));
                                assert(s =~= s.take(read + d) + seq![s[read + d]] + s.skip(
                                    read + d + 1,
                                ));
                            }
                            if d + 1 < view.len() {
                                // The byte after the terminator is
                                // already in view: classify the pair
                                // right here.
                                let c1 = view[d + 1];
                                proof {
                                    lemma_line_at(s.take(read + d), view@[d as int], s.skip(
                                        read + d + 1,
                                    ));
                                    assert(s.skip(read + d + 1)[0] == s[read + d + 1]);
                                }
                                if is_terminator_byte(c1) && c1 != view[d] {
                                    let n = d + 2;
                                    self.consume(n);
                                    proof {
                                        assert(is_mixed(s[read + d], s[read + d + 1]));
                                        assert(line_consumed(s) == read + d + 2);
                                        assert(self.remaining() =~= s.skip(read + n));
                                    }
                                    return Ok(read + n);
                                } else {
                                    let n = d + 1;
                                    self.consume(n);
                                    proof {
                                        assert(!is_mixed(s[read + d], s[read + d + 1]));
                                        assert(line_consumed(s) == read + d + 1);
                                        assert(self.remaining() =~= s.skip(read + n));
                                    }
                                    return Ok(read + n);
                                }
                            } else {
                                // The terminator is the last byte
                                // available: consume through it and carry
                                // it as pending lookahead into the next
                                // view.
                                prev = Some(view[d]);
                                self.consume(d + 1);
                                proof {
                                    assert(self.remaining() =~= s.skip(read + d + 1));
                                }
                                read = read + d + 1;
                            }
                        },
                    }
                },
            }
        }
    }

    /// Wrap the source into a pull-based producer of its decoded lines.
    fn lines_all(self) -> (it: LinesAllIter<Self>)
        ensures
            it.inner == self,
    {
        LinesAllIter { inner: self }
    }
}

/// An in-memory source over a byte vector that hands out at most `cap`
/// bytes per refill, the way a bounded refill buffer over a larger stream
/// would, and never fails.
pub struct ChunkSource {
    data: Vec<u8>,
    pos: usize,
    cap: usize,
}

impl ChunkSource {
    /// A source positioned at the start of `data`. A `cap` of zero is
    /// treated as one: a refill of a non-exhausted source always yields
    /// at least one byte.
    pub fn new(data: Vec<u8>, cap: usize) -> (s: ChunkSource)
        ensures
            s.remaining() == data@,
            s.interruptions() == 0,
            !s.may_fail(),
    {
        let s = ChunkSource { data, pos: 0, cap };
        proof {
            assert(s.remaining() =~= s.data@);
        }
        s
    }
}

impl NewLine for ChunkSource {
    closed spec fn remaining(&self) -> Seq<u8> {
        if self.pos <= self.data@.len() {
            self.data@.skip(self.pos as int)
        } else {
            Seq::empty()
        }
    }

    closed spec fn interruptions(&self) -> nat {
        0
    }

    closed spec fn may_fail(&self) -> bool {
        false
    }

    #[verifier::loop_isolation(false)]
    fn fill_buf(&mut self) -> (r: Result<Vec<u8>, FillError>) {
        if self.pos >= self.data.len() {
            Ok(Vec::new())
        } else {
            let avail = self.data.len() - self.pos;
            let want = if self.cap == 0 {
                1
            } else {
                self.cap
            };
            let n = if want < avail {
                want
            } else {
                avail
            };
            let mut v: Vec<u8> = Vec::new();
            let mut i: usize = 0;
            while i < n
                invariant
                    i <= n,
                    v@ =~= self.data@.subrange(self.pos as int, self.pos + i),
                decreases n - i,
            {
                v.push(self.data[self.pos + i]);
                i = i + 1;
            }
            proof {
                assert(v@.is_prefix_of(self.remaining())) by {
                    assert(v@ =~= self.remaining().subrange(0, v@.len() as int));
                }
            }
            Ok(v)
        }
    }

    fn consume(&mut self, amt: usize) {
        let len = self.data.len();
        proof {
            if self.pos <= self.data@.len() {
                assert(self.pos + amt <= len);
            } else {
                assert(old(self).remaining().len() == 0);
                assert(amt == 0);
            }
        }
        self.pos = self.pos + amt;
        proof {
            assert(self.remaining() =~= old(self).remaining().skip(amt as int));
        }
    }
}

/// Relies on std::io::Error::new: an error value of the given kind,
/// carrying the given message.
#[verifier::external_body]
fn end_failure() -> std::io::Error {
    std::io::Error::new(std::io::ErrorKind::UnexpectedEof, "the source failed at end of stream")
}

/// An in-memory source for exercising failure handling: before every
/// successful refill it raises a given number of transient
/// interruptions — which a scan must retry silently — and it can be made
/// to fail outright once its bytes are gone, instead of reporting end of
/// stream.
pub struct FlakySource {
    inner: ChunkSource,
    period: usize,
    current: usize,
    fail_at_end: bool,
}

impl FlakySource {
    /// A source positioned at the start of `data`, handing out at most
    /// `cap` bytes per refill, raising `hiccups` transient interruptions
    /// before each refill, and failing at end of stream when
    /// `fail_at_end` is set.
    pub fn new(data: Vec<u8>, cap: usize, hiccups: usize, fail_at_end: bool) -> (s: FlakySource)
        ensures
            s.remaining() == data@,
            s.interruptions() == hiccups,
            s.may_fail() == fail_at_end,
    {
        FlakySource { inner: ChunkSource::new(data, cap), period: hiccups, current: hiccups, fail_at_end }
    }
}

impl NewLine for FlakySource {
    closed spec fn remaining(&self) -> Seq<u8> {
        self.inner.remaining()
    }

    closed spec fn interruptions(&self) -> nat {
        self.current as nat
    }

    closed spec fn may_fail(&self) -> bool {
        self.fail_at_end
    }

    fn fill_buf(&mut self) -> (r: Result<Vec<u8>, FillError>) {
        if self.current > 0 {
            self.current = self.current - 1;
            proof {
                assert(self.current < old(self).current);
                assert(self.interruptions() < old(self).interruptions());
            }
            return Err(FillError::Interrupted);
        }
        match self.inner.fill_buf() {
            Ok(v) => {
                if self.fail_at_end && v.len() == 0 {
                    return Err(FillError::Failed(end_failure()));
                }
                self.current = self.period;
                Ok(v)
            },
            Err(e) => {
                // The in-memory inner source cannot raise either kind of
                // failure: its interruption budget is zero and it never
                // fails for good.
                proof {
                    match e {
                        FillError::Interrupted => assert(false),
                        FillError::Failed(_) => assert(false),
                    }
                }
                Err(e)
            },
        }
    }

    fn consume(&mut self, amt: usize) {
        self.inner.consume(amt);
    }
}

} // verus!
