//! Universal line splitting over a refillable byte source.
//!
//! A line may end in any of the four terminators `\n`, `\r`, `\r\n` or
//! `\n\r`, and different lines of one stream may use different ones. The
//! scanner finds each line's end with one byte of lookahead, carried across
//! refill boundaries, so a two-byte terminator split between two refills is
//! classified exactly as if it had arrived whole.

pub mod laws;
pub mod lines;
pub mod model;
pub mod scan;
pub mod source;

pub use laws::{joined, valid_term_seq, wf_join};
pub use lines::{Error, LinesAllIter};
pub use model::{
    all_lines, is_mixed, is_term, line_consumed, line_content, term_free, CARRIAGE_RETURN,
    LINE_FEED,
};
pub use source::{ChunkSource, FillError, FlakySource, NewLine};
