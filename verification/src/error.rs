//! The failures a rebuild can end in, grouped by kind.

use crate::spr::SpriteChannelType;
use vstd::prelude::*;
use vstd::string::StringExecFns;

verus! {

/// The four kinds of failure that the library itself can report.
#[derive(Clone, Copy, Debug, PartialEq, Eq, Structural)]
pub enum ErrorKind {
    /// The archive bytes are not a well-formed archive.
    Decode,
    /// A record does not fit the layout it is written in.
    Schema,
    /// Two records, or two archives, contradict each other.
    Consistency,
    /// Pixel data cannot be written in, or read from, a run-length format.
    Codec,
}

/// What is wrong with the pixels of one frame, or with the commands they
/// were written as.
#[derive(Clone, Copy, Debug, PartialEq, Eq, Structural)]
pub enum PixelError {
    /// A pixel buffer is not as large as its frame.
    PixelCount,
    /// A frame's bounds are negative, inverted or outside its bitmap.
    Bounds,
    /// A run, a row or a row count does not fit its length field.
    RunTooLong,
    /// A command stream is not one that the encoder can have written.
    MalformedCommands,
}

/// What is wrong with an archive as it was read.
#[derive(Clone, Copy, Debug, PartialEq, Eq, Structural)]
pub enum ArchiveError {
    /// The archive ends inside its preamble, a chunk header or a payload.
    Truncated,
    /// The archive does not start with the format's signature.
    BadMagic,
    /// A chunk declares a size smaller than its own header.
    ChunkSizeTooSmall { chunk_id: i16 },
    /// A chunk label has no NUL byte within its 64 bytes.
    LabelNotTerminated { chunk_id: i16 },
    /// An object definition's payload ends before its GUID field.
    ObjectDefinitionTooShort { chunk_id: i16 },
    /// The archive holds no object definition chunk.
    NoGuids,
}

/// Why a rebuild stopped.
#[derive(Clone, Copy, Debug, PartialEq, Eq, Structural)]
pub enum Error {
    /// The archive ends inside its preamble, a chunk header or a payload.
    Truncated,
    /// The archive does not start with the format's signature.
    BadMagic,
    /// A chunk declares a size smaller than its own header.
    ChunkSizeTooSmall { chunk_id: i16 },
    /// A chunk label has no NUL byte within its 64 bytes.
    LabelNotTerminated { chunk_id: i16 },
    /// An object definition's payload ends before its GUID field.
    ObjectDefinitionTooShort { chunk_id: i16 },
    /// A behaviour chunk's payload is not a whole number of instructions.
    BehaviorMisaligned { chunk_id: i16 },
    /// The label of a new chunk holds a NUL byte.
    LabelContainsNul { chunk_id: i16 },
    /// The label of a new chunk and its terminator do not fit in 64 bytes.
    LabelTooLong { chunk_id: i16 },
    /// A chunk is too large for its 32-bit size fields, or lies too far
    /// into the archive for the directory to point at it.
    TooLarge { chunk_id: i16 },
    /// A chunk's declared size is not that of its header and payload.
    SizeMismatch { chunk_id: i16 },
    /// A palette does not have exactly 256 entries.
    PaletteSize { chunk_id: i16 },
    /// A bitmap of a sprite has no colour table: it is not an 8-bit
    /// bitmap.
    NotIndexed { sprite_id: i16 },
    /// A sprite's declared frame count is not the number of its frames.
    FrameCountMismatch { sprite_id: i16 },
    /// A frame's index is not its position in its sprite.
    FrameIndexMismatch { sprite_id: i16, position: i32 },
    /// A frame's channels are not the ones its sprite type asks for.
    ChannelLayout { sprite_id: i16, frame: i32 },
    /// A channel names no file.
    ChannelPathEmpty { sprite_id: i16, frame: i32 },
    /// The description holds no object definition.
    NoObjectDefinitions,
    /// Two object definitions share a chunk id.
    DuplicateObjectId { chunk_id: i16 },
    /// Two object definitions share a GUID.
    DuplicateObjectGuid { guid: i32 },
    /// Two sprites that are added to a description share a chunk id.
    DuplicateSpriteId { chunk_id: i16 },
    /// A sprite that is added to a description has no frame.
    NoDescribedFrames { sprite_id: i16 },
    /// An object is less than one tile, or more than 32 tiles, wide or
    /// deep.
    ObjectDimension,
    /// An object that is split has no frame.
    NoFramesToSplit,
    /// Two frames of an object that is split share a base sprite id.
    DuplicateBaseSpriteId,
    /// Two base sprite ids are closer than the number of tiles of the
    /// object.
    BaseSpriteIdsTooClose,
    /// A draw group's item lists are not in rotation and zoom order.
    DrawGroupOrder { chunk_id: i16, list: i32 },
    /// There is no object definition among the chunks of an archive; in
    /// a rebuild, of the archive that is rebuilt.
    NoGuids,
    /// The two archives do not define the same objects.
    GuidKeysDiffer,
    /// A variant carries exactly the GUIDs of the archive it was made from.
    GuidsIdentical,
    /// An object definition has no GUID in the target archive.
    MissingGuid { chunk_id: i16 },
    /// An object definition refers to a slot that is not described.
    MissingSlot { object_id: i16 },
    /// An object definition refers to a draw group that is not described.
    MissingDrawGroup { object_id: i16 },
    /// A record refers to a sprite that is not described.
    MissingSprite { chunk_id: i16 },
    /// A draw group item refers to a frame its sprite does not have.
    MissingFrame { chunk_id: i16 },
    /// A sprite frame lacks a channel that its format needs.
    MissingChannel { sprite_id: i16, frame: i32, channel: SpriteChannelType },
    /// A sprite has no frame to take its palette from.
    NoFrames { sprite_id: i16 },
    /// Pixel data was not supplied for a frame, or for a palette.
    MissingPixels { sprite_id: i16 },
    /// The pixels of a frame of a sprite cannot be written, or cannot be
    /// measured.
    Frame { sprite_id: i16, frame: i32, cause: PixelError },
    /// The archive that the result replaces cannot be read, or defines no
    /// object.
    Output { defect: ArchiveError },
}

impl Error {
    /// The kind of this failure.
    pub open spec fn spec_kind(self) -> ErrorKind {
        match self {
            Error::Truncated
            | Error::BadMagic
            | Error::ChunkSizeTooSmall { .. }
            | Error::LabelNotTerminated { .. }
            | Error::ObjectDefinitionTooShort { .. }
            | Error::BehaviorMisaligned { .. } => ErrorKind::Decode,
            Error::LabelContainsNul { .. }
            | Error::LabelTooLong { .. }
            | Error::TooLarge { .. }
            | Error::SizeMismatch { .. }
            | Error::PaletteSize { .. }
            | Error::NotIndexed { .. }
            | Error::FrameCountMismatch { .. }
            | Error::FrameIndexMismatch { .. }
            | Error::ChannelLayout { .. }
            | Error::ChannelPathEmpty { .. }
            | Error::NoObjectDefinitions
            | Error::DuplicateObjectId { .. }
            | Error::DuplicateObjectGuid { .. }
            | Error::DuplicateSpriteId { .. }
            | Error::NoDescribedFrames { .. }
            | Error::ObjectDimension
            | Error::NoFramesToSplit
            | Error::DuplicateBaseSpriteId
            | Error::BaseSpriteIdsTooClose
            | Error::DrawGroupOrder { .. } => ErrorKind::Schema,
            Error::NoGuids
            | Error::GuidKeysDiffer
            | Error::GuidsIdentical
            | Error::MissingGuid { .. }
            | Error::MissingSlot { .. }
            | Error::MissingDrawGroup { .. }
            | Error::MissingSprite { .. }
            | Error::MissingFrame { .. }
            | Error::MissingChannel { .. }
            | Error::NoFrames { .. }
            | Error::MissingPixels { .. } => ErrorKind::Consistency,
            Error::Frame { .. } => ErrorKind::Codec,
            Error::Output { defect: ArchiveError::NoGuids } => ErrorKind::Consistency,
            Error::Output { .. } => ErrorKind::Decode,
        }
    }

    /// This failure where it is found in the archive that the result
    /// replaces, and not in the archive that is rebuilt.
    pub open spec fn spec_in_output(self) -> Error {
        match self {
            Error::Truncated => Error::Output { defect: ArchiveError::Truncated },
            Error::BadMagic => Error::Output { defect: ArchiveError::BadMagic },
            Error::ChunkSizeTooSmall { chunk_id } => Error::Output {
                defect: ArchiveError::ChunkSizeTooSmall { chunk_id },
            },
            Error::LabelNotTerminated { chunk_id } => Error::Output {
                defect: ArchiveError::LabelNotTerminated { chunk_id },
            },
            Error::ObjectDefinitionTooShort { chunk_id } => Error::Output {
                defect: ArchiveError::ObjectDefinitionTooShort { chunk_id },
            },
            Error::NoGuids => Error::Output { defect: ArchiveError::NoGuids },
            e => e,
        }
    }

    /// This failure where it is found in the archive that the result
    /// replaces.
    #[verifier::when_used_as_spec(spec_in_output)]
    pub fn in_output(self) -> (e: Error)
        ensures
            e == self.spec_in_output(),
    {
        match self {
            Error::Truncated => Error::Output { defect: ArchiveError::Truncated },
            Error::BadMagic => Error::Output { defect: ArchiveError::BadMagic },
            Error::ChunkSizeTooSmall { chunk_id } => Error::Output {
                defect: ArchiveError::ChunkSizeTooSmall { chunk_id },
            },
            Error::LabelNotTerminated { chunk_id } => Error::Output {
                defect: ArchiveError::LabelNotTerminated { chunk_id },
            },
            Error::ObjectDefinitionTooShort { chunk_id } => Error::Output {
                defect: ArchiveError::ObjectDefinitionTooShort { chunk_id },
            },
            Error::NoGuids => Error::Output { defect: ArchiveError::NoGuids },
            e => e,
        }
    }

    /// The kind of this failure.
    #[verifier::when_used_as_spec(spec_kind)]
    pub fn kind(self) -> (k: ErrorKind)
        ensures
            k == self.spec_kind(),
    {
        match self {
            Error::Truncated
            | Error::BadMagic
            | Error::ChunkSizeTooSmall { .. }
            | Error::LabelNotTerminated { .. }
            | Error::ObjectDefinitionTooShort { .. }
            | Error::BehaviorMisaligned { .. } => ErrorKind::Decode,
            Error::LabelContainsNul { .. }
            | Error::LabelTooLong { .. }
            | Error::TooLarge { .. }
            | Error::SizeMismatch { .. }
            | Error::PaletteSize { .. }
            | Error::NotIndexed { .. }
            | Error::FrameCountMismatch { .. }
            | Error::FrameIndexMismatch { .. }
            | Error::ChannelLayout { .. }
            | Error::ChannelPathEmpty { .. }
            | Error::NoObjectDefinitions
            | Error::DuplicateObjectId { .. }
            | Error::DuplicateObjectGuid { .. }
            | Error::DuplicateSpriteId { .. }
            | Error::NoDescribedFrames { .. }
            | Error::ObjectDimension
            | Error::NoFramesToSplit
            | Error::DuplicateBaseSpriteId
            | Error::BaseSpriteIdsTooClose
            | Error::DrawGroupOrder { .. } => ErrorKind::Schema,
            Error::NoGuids
            | Error::GuidKeysDiffer
            | Error::GuidsIdentical
            | Error::MissingGuid { .. }
            | Error::MissingSlot { .. }
            | Error::MissingDrawGroup { .. }
            | Error::MissingSprite { .. }
            | Error::MissingFrame { .. }
            | Error::MissingChannel { .. }
            | Error::NoFrames { .. }
            | Error::MissingPixels { .. } => ErrorKind::Consistency,
            Error::Frame { .. } => ErrorKind::Codec,
            Error::Output { defect: ArchiveError::NoGuids } => ErrorKind::Consistency,
            Error::Output { .. } => ErrorKind::Decode,
        }
    }
}

/// The message for a file that could not be read.
pub fn file_read_error(file_path: &str) -> (message: String)
    ensures
        message@ == "Failed to read "@ + file_path@,
{
    String::from_str("Failed to read ").concat(file_path)
}

/// The message for a file that could not be written.
pub fn file_write_error(file_path: &str) -> (message: String)
    ensures
        message@ == "Failed to write "@ + file_path@,
{
    String::from_str("Failed to write ").concat(file_path)
}

/// The message for an archive that could not be read as one.
pub fn iff_decode_error(file_path: &str) -> (message: String)
    ensures
        message@ == "Failed to decode iff file "@ + file_path@,
{
    String::from_str("Failed to decode iff file ").concat(file_path)
}

} // verus!
