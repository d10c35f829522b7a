use vstd::prelude::*;

verus! {

/// Every way in which decoding a manifest or resolving its catalog can fail.
#[derive(Clone, Copy, Debug, PartialEq, Eq, Structural)]
pub enum Error {
    /// A cursor was placed past the end of its buffer.
    IndexOutOfRange,
    /// A negative relative offset points before the buffer.
    RelativeUnderflow,
    /// A positive relative offset points past the buffer.
    RelativeOverflow,
    /// An absolute advance goes past the buffer.
    OffsetOverflow,
    /// Fewer bytes remain than a fixed-width number needs.
    ReadNum,
    /// A string's declared length runs past the buffer.
    StrData,
    /// A string's bytes are not UTF-8.
    StrEncoding,
    /// A vector's declared length runs past the buffer.
    VectorStorage,
    /// A required table is null.
    NullTable,
    /// A table's vtable offset is null.
    NullVtable,
    /// A vtable is smaller than its own 4-byte prefix.
    VtableTooSmall,
    /// A required field is absent.
    NullField,
    /// The manifest is shorter than its header.
    HeaderShort,
    /// The header's body offset points inside the header.
    BodyOffset,
    /// The manifest is shorter than its declared compressed body.
    BodyShort,
    /// The compressed body could not be decompressed.
    Decompress,
    /// A bundle id is zero.
    ZeroBundleId,
    /// A chunk id is zero.
    ZeroChunkId,
    /// A file id is zero.
    ZeroFileId,
    /// The running compressed offset within a bundle leaves 32 bits.
    CompressedOffsetOverflow,
    /// The running uncompressed offset within a file leaves 32 bits.
    UncompressedOffsetOverflow,
    /// A parameter block allows chunks larger than the hard limit.
    ChunkLimit,
    /// A name is `.` or `..`.
    DotName,
    /// A name holds a character outside the filename charset.
    IllegalChar,
    /// A directory's parent chain returns to its start.
    DirCycle,
    /// A directory id does not resolve.
    DirNotFound,
    /// A language id does not resolve.
    LangNotFound,
    /// A chunk id does not resolve.
    ChunkNotFound,
    /// A parameter block index does not resolve.
    ParamsNotFound,
    /// A hash-type byte is not one of the four known values.
    BadHashType,
    /// A chunk is larger than its file's parameter block allows.
    ChunkTooBig,
    /// A chunk ends past the end of its file.
    ChunkOutsideFile,
    /// Fewer bytes were fetched than a chunk's compressed size.
    ChunkDataShort,
}

} // verus!
