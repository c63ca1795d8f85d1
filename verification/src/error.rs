use vstd::prelude::*;

verus! {

/// The part of a span batch that could not be decoded.
#[derive(Debug, Clone, Copy, PartialEq, Eq, Structural)]
pub enum SpanDecodingError {
    /// The relative timestamp of the first block.
    RelativeTimestamp,
    /// The L1 origin number.
    L1OriginNumber,
    /// The parent check.
    ParentCheck,
    /// The L1 origin check.
    L1OriginCheck,
}

/// Errors raised while handling span batches.
#[derive(Debug, Clone, Copy, PartialEq, Eq, Structural)]
pub enum SpanBatchError {
    /// A field of the span batch could not be decoded.
    Decoding(SpanDecodingError),
}

} // verus!
