//! The error taxonomy shared by the container parser, the tiled-image codec
//! and the compositor, together with its ghost mirror used in contracts.

use vstd::prelude::*;

verus! {

/// Which magic signature a [`FvpError::FormatMismatch`] was detected on.
#[derive(Clone, Copy, Debug, PartialEq, Eq, Structural)]
pub enum SignatureKind {
    /// The outer `hzc1` signature of a tiled-image blob.
    HzcFile,
    /// The inner `NVSG` signature of the image header.
    HzcHeader,
}

/// Everything that can go wrong while parsing, writing, decoding or
/// compositing. All of these are structural: they describe malformed input
/// or inconsistent frame geometry, and none is recovered locally.
#[derive(Debug)]
pub enum FvpError {
    /// A fixed-width read or a string terminator would run past the buffer.
    OffsetTooLarge,
    /// A filename's bytes are not valid Shift-JIS, or decoding drifted to
    /// another encoding.
    CannotDecodeString,
    /// A filename holds characters that Shift-JIS cannot represent.
    CannotEncodeString,
    /// The container's offsets would not fit the format's 32-bit fields.
    ArchiveTooLarge,
    /// A magic signature did not match; carries the expected and the
    /// actually-found four bytes.
    FormatMismatch { format: SignatureKind, expected: Vec<u8>, found: Vec<u8> },
    /// The compressed payload is not a well-formed zlib stream.
    CannotDecompress,
    /// The decompressed payload's length differs from the declared size.
    DecompressLengthMismatch { expected: u64, found: u64 },
    /// The payload does not split into `frames` equal parts.
    PartitionMismatch { frames: u32, length: u64 },
    /// A frame's byte length differs from width x height x bytes-per-pixel.
    DimensionMismatch { expected: u64, found: u64 },
    /// The pixel-layout tag is reserved or unknown; carries the tag.
    UnsupportedPixelLayout { found: u16 },
    /// A frame added to an image container has a different width.
    ImageWidthMismatch { expected: u16, found: u16 },
    /// A frame added to an image container has a different height.
    ImageHeightMismatch { expected: u16, found: u16 },
    /// A frame added to an image container has a different placement.
    ImageOffsetMismatch { expected: (u16, u16), found: (u16, u16) },
    /// The compositing base image holds more than one frame.
    MultipleBaseFrames,
    /// The base and the expression image use different pixel layouts.
    LayoutMismatch,
    /// An expression frame's placement rectangle exceeds the base frame.
    PlacementOutOfBounds,
}

/// The mathematical mirror of [`FvpError`]: byte vectors become sequences,
/// sizes become unbounded integers. Contracts state which error a function
/// returns in terms of this model.
pub ghost enum ErrModel {
    OffsetTooLarge,
    CannotDecodeString,
    CannotEncodeString,
    ArchiveTooLarge,
    FormatMismatch { format: SignatureKind, expected: Seq<u8>, found: Seq<u8> },
    CannotDecompress,
    DecompressLengthMismatch { expected: int, found: int },
    PartitionMismatch { frames: int, length: int },
    DimensionMismatch { expected: int, found: int },
    UnsupportedPixelLayout { found: u16 },
    ImageWidthMismatch { expected: u16, found: u16 },
    ImageHeightMismatch { expected: u16, found: u16 },
    ImageOffsetMismatch { expected: (u16, u16), found: (u16, u16) },
    MultipleBaseFrames,
    LayoutMismatch,
    PlacementOutOfBounds,
}

impl View for FvpError {
    type V = ErrModel;

    open spec fn view(&self) -> ErrModel {
        match self {
            FvpError::OffsetTooLarge => ErrModel::OffsetTooLarge,
            FvpError::CannotDecodeString => ErrModel::CannotDecodeString,
            FvpError::CannotEncodeString => ErrModel::CannotEncodeString,
            FvpError::ArchiveTooLarge => ErrModel::ArchiveTooLarge,
            FvpError::FormatMismatch { format, expected, found } => (ErrModel::FormatMismatch {
                format: *format,
                expected: expected@,
                found: found@,
            }),
            FvpError::CannotDecompress => ErrModel::CannotDecompress,
            FvpError::DecompressLengthMismatch { expected, found } => (
            ErrModel::DecompressLengthMismatch { expected: *expected as int, found: *found as int }),
            FvpError::PartitionMismatch { frames, length } => (ErrModel::PartitionMismatch {
                frames: *frames as int,
                length: *length as int,
            }),
            FvpError::DimensionMismatch { expected, found } => (ErrModel::DimensionMismatch {
                expected: *expected as int,
                found: *found as int,
            }),
            FvpError::UnsupportedPixelLayout { found } => (ErrModel::UnsupportedPixelLayout {
                found: *found,
            }),
            FvpError::ImageWidthMismatch { expected, found } => (ErrModel::ImageWidthMismatch {
                expected: *expected,
                found: *found,
            }),
            FvpError::ImageHeightMismatch { expected, found } => (ErrModel::ImageHeightMismatch {
                expected: *expected,
                found: *found,
            }),
            FvpError::ImageOffsetMismatch { expected, found } => (ErrModel::ImageOffsetMismatch {
                expected: *expected,
                found: *found,
            }),
            FvpError::MultipleBaseFrames => ErrModel::MultipleBaseFrames,
            FvpError::LayoutMismatch => ErrModel::LayoutMismatch,
            FvpError::PlacementOutOfBounds => ErrModel::PlacementOutOfBounds,
        }
    }
}

/// Shorthand for results whose error side is [`FvpError`].
pub type FvpResult<T> = Result<T, FvpError>;

} // verus!
