//! Errors reported by the codec, the modulator and the demodulator.

use vstd::prelude::*;

verus! {

/// Why a call was refused. Every error is detected before any output is
/// produced.
#[derive(Clone, Copy, Debug, PartialEq, Eq, Structural)]
pub enum OfdmError {
    /// The configuration is outside the supported range, or its data bits do
    /// not fill a whole number of bytes.
    InvalidConfiguration,
    /// The payload does not have exactly the capacity of one symbol.
    InvalidPayloadLength,
    /// A sample buffer or an output buffer does not have the required length.
    InvalidBufferLength,
    /// An odd number of constellation points cannot be paired into bytes.
    InvalidPointCount,
    /// The transform handed over a block of the wrong size.
    TransformError,
}

} // verus!
