//! Compact classification of Unicode codepoints against the two
//! identifier properties, "may start an identifier" and "may continue an
//! identifier".
//!
//! The offline builder compresses a full codepoint-to-boolean table into a
//! two-level trie: 512-codepoint blocks become deduplicated 64-byte
//! bitsets ([`chunks`]), the bitsets are overlapped wherever the trailing
//! half of one equals the leading half of another, chosen by maximum
//! bipartite matching ([`overlap`]), and the persisted tables answer any
//! lookup in constant time with no error path ([`tables`]). The property
//! source itself ([`props`]) and the readers of the Unicode data files
//! ([`parse`], [`version`]) feed the builder.

use vstd::prelude::*;

pub mod chunks;
pub mod output;
pub mod overlap;
pub mod parse;
pub mod props;
pub mod tables;
pub mod version;

verus! {

/// One of the two boolean identifier properties tracked by the tables:
/// "may start an identifier" and "may continue an identifier".
#[derive(Clone, Copy, PartialEq, Eq, Structural, Debug)]
pub enum Property {
    Start,
    Continue,
}

/// A structural assumption was violated while building the tables.
/// None of these is recoverable: the chunk size or the catalogue cap
/// must be reconsidered before the data can be encoded.
#[derive(Clone, Copy, PartialEq, Eq, Structural, Debug)]
pub enum BuildError {
    /// The input needs more than 256 distinct chunks, so chunk ids no
    /// longer fit in one byte.
    TooManyChunks,
    /// The compressed array needs more than 256 half-chunk slots, so
    /// offsets no longer fit in one byte.
    TooManyHalfChunks,
    /// A chunk was never placed (or would have been placed twice) by the
    /// layout pass: a residual cycle among the fusion links.
    ResidualChunk,
}

} // verus!
