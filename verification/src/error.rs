//! Error taxonomy of the tile pipeline.

use vstd::prelude::*;

verus! {

/// Tile pipeline error types.
///
/// Each variant names one failure source of the pipeline; underlying
/// database failures keep their message bytes for diagnostics.
#[derive(Debug, Clone)]
pub enum Error {
    /// Tile address out of range: column or row does not fit the zoom level.
    InvalidAddress,
    /// The connection pool is at capacity and cannot grow.
    PoolExhausted,
    /// Waiting for a pooled connection exceeded the caller's timeout.
    PoolTimeout,
    /// Underlying database failure; the message bytes are preserved.
    QueryFailed(Vec<u8>),
    /// A geometry type tag the encoder does not support.
    UnsupportedGeometryType(u32),
    /// The finished tile holds no features and policy treats that as failure.
    TileEmpty,
    /// The serialized tile exceeds the configured maximum byte size.
    EncodingOverflow,
}

/// Mathematical value of an `Error`.
#[verifier::ext_equal]
pub enum ErrorV {
    InvalidAddress,
    PoolExhausted,
    PoolTimeout,
    QueryFailed(Seq<u8>),
    UnsupportedGeometryType(u32),
    TileEmpty,
    EncodingOverflow,
}

impl View for Error {
    type V = ErrorV;

    open spec fn view(&self) -> ErrorV {
        match *self {
            Error::InvalidAddress => ErrorV::InvalidAddress,
            Error::PoolExhausted => ErrorV::PoolExhausted,
            Error::PoolTimeout => ErrorV::PoolTimeout,
            Error::QueryFailed(m) => ErrorV::QueryFailed(m@),
            Error::UnsupportedGeometryType(c) => ErrorV::UnsupportedGeometryType(c),
            Error::TileEmpty => ErrorV::TileEmpty,
            Error::EncodingOverflow => ErrorV::EncodingOverflow,
        }
    }
}

} // verus!
