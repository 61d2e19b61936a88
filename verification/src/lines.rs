//! The line sequence producer: a pull-based, forward-only sequence of the
//! decoded lines of a source.

use crate::model::{line_consumed, line_content, term_free};
use crate::source::NewLine;
use vstd::prelude::*;
use vstd::utf8::{decode_utf8, valid_utf8};

verus! {

/// std::string::FromUtf8Error, declared so a failed decode can be handed
/// back to the caller exactly as String::from_utf8 reported it.
#[verifier::external_type_specification]
#[verifier::external_body]
pub struct ExFromUtf8Error(std::string::FromUtf8Error);

/// What pulling a line can fail with: a failure of the underlying source,
/// or line bytes that are not valid UTF-8.
#[derive(Debug)]
pub enum Error {
    Io(std::io::Error),
    FromUtf8Error(std::string::FromUtf8Error),
}

/// Relies on String::from_utf8: Ok exactly when the bytes are valid
/// UTF-8, in which case the string's characters decode those bytes.
#[verifier::external_body]
fn decode_line(bytes: Vec<u8>) -> (r: Result<String, std::string::FromUtf8Error>)
    ensures
        r is Ok <==> valid_utf8(bytes@),
        (r matches Ok(t) ==> t@ == decode_utf8(bytes@)),
{
    String::from_utf8(bytes)
}

/// A pull-based producer of the successive decoded lines of a source:
/// forward-only and not restartable. Each pull scans one line and hands
/// back its text, an error, or — once the source is exhausted — nothing,
/// then nothing again on every later pull.
pub struct LinesAllIter<R> {
    /// The wrapped source, positioned at the start of the next line.
    pub inner: R,
}

impl<R: NewLine> LinesAllIter<R> {
    /// The bytes of the source not yet consumed.
    pub open spec fn remaining(&self) -> Seq<u8> {
        self.inner.remaining()
    }

    /// Whether the wrapped source can ever refuse a refill for good.
    /// When it cannot, pulling never yields an I/O failure, and the
    /// end-of-sequence answer comes exactly once the bytes are gone —
    /// and then keeps coming.
    pub open spec fn may_fail(&self) -> bool {
        self.inner.may_fail()
    }

    /// Pull the next line. Yields the decoded content of the first line
    /// of what remained, and consumes that line and its terminator; on
    /// bytes that are not valid UTF-8 it yields the decoding failure,
    /// consuming the line all the same. A source failure is handed
    /// through, leaving the source within the unfinished line, a
    /// terminator-free prefix of it consumed up to at most one pending
    /// terminator byte; a source that cannot fail never yields one. On an
    /// exhausted source it yields nothing and consumes nothing.
    pub fn next(&mut self) -> (r: Option<Result<String, Error>>)
        requires
            old(self).remaining().len() <= usize::MAX,
        ensures
            ({
                let s = old(self).remaining();
                match r {
                    None => s.len() == 0 && final(self).remaining() == s,
                    Some(item) => (match item {
                        Ok(t) => {
                            &&& s.len() > 0
                            &&& final(self).remaining() == s.skip(line_consumed(s) as int)
                            &&& valid_utf8(line_content(s))
                            &&& t@ == decode_utf8(line_content(s))
                        },
                        Err(e) => (match e {
                            Error::FromUtf8Error(_) => {
                                &&& s.len() > 0
                                &&& final(self).remaining() == s.skip(line_consumed(s) as int)
                                &&& !valid_utf8(line_content(s))
                            },
                            Error::Io(_) => {
                                &&& old(self).may_fail()
                                &&& exists|k: int, c: int|
                                    {
                                        &&& 0 <= c <= k <= s.len()
                                        &&& k - c <= 1
                                        &&& final(self).remaining() == s.skip(k)
                                        &&& term_free(s.take(c))
                                    }
                            },
                        }),
                    }),
                }
            }),
            final(self).may_fail() == old(self).may_fail(),
            (old(self).remaining().len() == 0 && !old(self).may_fail() ==> r is None),
    {
        let ghost s = self.inner.remaining();
        let mut line: Vec<u8> = Vec::new();
        match self.inner.read_line_all(&mut line) {
            Ok(n) => {
                if n == 0 {
                    proof {
                        assert(s.skip(0) =~= s);
                    }
                    None
                } else {
                    proof {
                        assert(Seq::<u8>::empty() + line_content(s) =~= line_content(s));
                    }
                    match decode_line(line) {
                        Ok(t) => Some(Ok(t)),
                        Err(e) => Some(Err(Error::FromUtf8Error(e))),
                    }
                }
            },
            Err(e) => Some(Err(Error::Io(e))),
        }
    }
}

} // verus!
