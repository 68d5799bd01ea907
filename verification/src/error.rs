use vstd::prelude::*;

verus! {

/// Every failure of the library, propagated as one sum type.
#[derive(Clone, Copy, Debug, PartialEq, Eq, Structural)]
pub enum TileError {
    /// The underlying transport (file or HTTP) failed.
    Io,
    /// The first bytes of a container are not the expected magic.
    BadMagic,
    /// A container holds fewer bytes than a full file header.
    TruncatedHeader,
    /// A block or tile index did not parse.
    CorruptIndex,
    /// No transcode path exists between two tile formats.
    UnsupportedConversion,
    /// An image codec or a compressor failed on a blob.
    CodecError,
    /// A tile coordinate lies outside `[0, 2^z)`.
    InvalidCoord,
    /// A writer was asked to emit before all blocks were completed.
    NotFinalized,
}

} // verus!
