use vstd::prelude::*;

verus! {

/// The failures the storage engine can report.  `open`-time file problems are
/// the caller's to report; everything that can go wrong while decoding bytes
/// is one of these.
#[derive(Clone, Copy, Debug, PartialEq, Eq, Structural)]
pub enum CacheError {
    /// A declared size exceeds the index's container cap, or a container
    /// header declares a compressed size over the hard limit.
    OversizeContainer,
    /// The sector record's `first_sector` is zero: nothing is stored.
    EmptyArchive,
    /// A chain reached `next_sector == 0` before the full size was read.
    TruncatedChain,
    /// A sector header does not carry the expected archive, part and index.
    SectorMetadataMismatch,
    /// A codec produced a different length than the container declared.
    SizeMismatch,
    /// A codec rejected its input, or a container is too short to decode.
    DecodeError,
    /// The container names a compression scheme this engine does not know.
    UnknownCodec,
}

} // verus!
