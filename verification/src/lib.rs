//! Span batch prefix decoding and raw span batch construction for the
//! derivation pipeline, with machine-checked contracts.

pub mod error;
pub mod varint;
pub mod prefix;
pub mod batch;
