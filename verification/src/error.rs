//! The ways in which framing, encoding and decoding can fail.

use vstd::prelude::*;

verus! {

/// One of the three byte segments that a symbol carries.
#[derive(Clone, Copy, Debug, PartialEq, Eq, Structural)]
pub enum Segment {
    Header,
    Data,
    Footer,
}

/// Why a symbol could not be made or read, or a run could not go on.
#[derive(Clone, Copy, Debug, PartialEq, Eq, Structural)]
pub enum CodecError {
    /// The version is not in 1..=40 or the error-correction level not in 0..=3,
    /// or the symbol is too small to carry a chunk between two markers.
    InvalidQrSettings,
    /// The named segment is the first with which the symbol overflows.
    PayloadTooLarge(Segment),
    /// The raster is empty or lacks pixels, or could not be serialised as a
    /// still image.
    ImageEncodeError,
    /// The bytes are not a still image of the expected format.
    ImageDecodeError,
    /// No symbol in the image could be decoded.
    QrNotFound,
    /// The header or the footer marker is missing from the decoded bytes.
    FrameMarkerNotFound,
    /// The video collaborator stopped abnormally or its pipe broke.
    UpstreamProcessFailure,
}

/// The outcome of a function that returns bytes, with the bytes as a sequence.
pub open spec fn bytes_outcome(r: Result<Vec<u8>, CodecError>) -> Result<Seq<u8>, CodecError> {
    match r {
        Ok(bytes) => Ok(bytes@),
        Err(e) => Err(e),
    }
}

} // verus!
