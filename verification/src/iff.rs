//! The archive container: a 64-byte preamble followed by chunks, each a
//! 76-byte header and a payload, with nothing between them.

use crate::bytes::{
    be_i16, be_u16, be_u32, i16_be_at, i16_bits, lemma_bits_roundtrip, lemma_of_bits_roundtrip,
    lemma_u16_reencode, lemma_u16_roundtrip, lemma_u32_reencode, lemma_u32_roundtrip, push_all,
    push_i16_be, push_u32_be, read_i16_be, read_u32_be, u16_be_at, u32_be_at,
};
use crate::error::Error;
use vstd::prelude::*;
use vstd::slice::slice_subrange;
use vstd::slice::slice_to_vec;
use vstd::string::StringSliceAdditionalSpecFns;

verus! {

/// Bytes before the first chunk.
pub const IFF_HEADER_SIZE: usize = 64;

/// Bytes of a chunk header.
pub const IFF_CHUNK_HEADER_SIZE: usize = 76;

/// Bytes of the label field of a chunk header.
pub const IFF_CHUNK_LABEL_SIZE: usize = 64;

/// The flags that every newly built chunk header carries.
pub const IFF_CHUNK_FLAGS: i16 = 0x10;

/// The signature that opens every archive.
pub const IFF_MAGIC: [u8; 60] = [
    73, 70, 70, 32, 70, 73, 76, 69, 32, 50, 46, 53, 58, 84, 89, 80, 69, 32, 70, 79, 76, 76, 79, 87,
    69, 68, 32, 66, 89, 32, 83, 73, 90, 69, 0, 32, 74, 65, 77, 73, 69, 32, 68, 79, 79, 82, 78, 66,
    79, 83, 32, 38, 32, 77, 65, 88, 73, 83, 32, 49,
];

/// Type tag of an object definition.
pub const TAG_OBJD: [u8; 4] = [79, 66, 74, 68];

/// Type tag of a behaviour (bytecode) chunk.
pub const TAG_BHAV: [u8; 4] = [66, 72, 65, 86];

/// Type tag of a draw group.
pub const TAG_DGRP: [u8; 4] = [68, 71, 82, 80];

/// Type tag of a palette.
pub const TAG_PALT: [u8; 4] = [80, 65, 76, 84];

/// Type tag of a slot record.
pub const TAG_SLOT: [u8; 4] = [83, 76, 79, 84];

/// Type tag of a legacy, single-plane sprite.
pub const TAG_SPR1: [u8; 4] = [83, 80, 82, 35];

/// Type tag of a modern, three-plane sprite.
pub const TAG_SPR2: [u8; 4] = [83, 80, 82, 50];

/// Type tag of the resource directory.
pub const TAG_RSMP: [u8; 4] = [114, 115, 109, 112];

/// Identifier of a chunk among those of its type.
#[derive(Copy, Clone, Debug, PartialEq, Eq, Hash, Structural)]
pub struct IffChunkId(pub i16);

impl IffChunkId {
    /// The identifier with the given number.
    pub fn new(id: i16) -> (r: IffChunkId)
        ensures
            r.0 == id,
    {
        IffChunkId(id)
    }

    /// The identifier as it is written in a chunk header.
    pub fn as_i16(self) -> (r: i16)
        ensures
            r == self.0,
    {
        self.0
    }

    /// The identifier widened to 32 bits, as records that refer to it hold it.
    pub fn as_i32(self) -> (r: i32)
        ensures
            r == self.0,
    {
        self.0 as i32
    }

    /// Moves on to the next identifier.
    pub fn advance(&mut self)
        requires
            old(self).0 < i16::MAX,
        ensures
            final(self).0 == old(self).0 + 1,
    {
        self.0 = self.0 + 1;
    }

    /// The identifier `other` places further on, if there is one.
    pub fn offset(self, other: i16) -> (r: Option<IffChunkId>)
        ensures
            r == if i16::MIN <= self.0 + other <= i16::MAX {
                Some(IffChunkId((self.0 + other) as i16))
            } else {
                None
            },
    {
        match self.0.checked_add(other) {
            Some(id) => Some(IffChunkId(id)),
            None => None,
        }
    }
}

/// What a chunk header says, as mathematical values.
pub struct HeaderModel {
    pub tag: Seq<u8>,
    pub size: u32,
    pub id: i16,
    pub flags: i16,
    pub label: Seq<u8>,
}

/// A chunk as mathematical values.
pub struct ChunkModel {
    pub header: HeaderModel,
    pub data: Seq<u8>,
}

/// An archive as mathematical values.
pub struct IffModel {
    pub rsmp_address: u32,
    pub chunks: Seq<ChunkModel>,
}

impl HeaderModel {
    /// The fields have the widths of the wire format and the label ends
    /// inside its field.
    pub open spec fn wf(self) -> bool {
        &&& self.tag.len() == 4
        &&& self.label.len() == 64
        &&& self.label.contains(0u8)
    }

    /// The 76 bytes of the header.
    pub open spec fn bytes(self) -> Seq<u8> {
        self.tag + be_u32(self.size) + be_i16(self.id) + be_i16(self.flags) + self.label
    }
}

impl ChunkModel {
    /// The header is well formed and declares the size that the chunk has.
    pub open spec fn wf(self) -> bool {
        &&& self.header.wf()
        &&& self.header.size == 76 + self.data.len()
    }

    /// The header followed by the payload.
    pub open spec fn bytes(self) -> Seq<u8> {
        self.header.bytes() + self.data
    }

    /// Why this chunk cannot be written, if it cannot.
    pub open spec fn defect(self) -> Option<Error> {
        if !self.header.label.contains(0u8) {
            Some(Error::LabelNotTerminated { chunk_id: self.header.id })
        } else if self.header.tag.len() != 4 || self.header.label.len() != 64 || self.header.size
            != 76 + self.data.len() {
            Some(Error::SizeMismatch { chunk_id: self.header.id })
        } else {
            None
        }
    }
}

/// Every chunk of `chunks` is well formed.
pub open spec fn all_wf(chunks: Seq<ChunkModel>) -> bool {
    forall|i: int| 0 <= i < chunks.len() ==> (#[trigger] chunks[i]).wf()
}

/// The chunks one after the other, with nothing between them.
pub open spec fn chunks_bytes(chunks: Seq<ChunkModel>) -> Seq<u8>
    decreases chunks.len(),
{
    if chunks.len() == 0 {
        Seq::empty()
    } else {
        chunks_bytes(chunks.drop_last()) + chunks.last().bytes()
    }
}

/// The sum of the sizes that the chunks declare.
pub open spec fn chunks_size(chunks: Seq<ChunkModel>) -> int
    decreases chunks.len(),
{
    if chunks.len() == 0 {
        0
    } else {
        chunks_size(chunks.drop_last()) + chunks.last().header.size
    }
}

/// Where chunk `i` starts in an archive that holds `chunks`.
pub open spec fn chunk_offset(chunks: Seq<ChunkModel>, i: int) -> int {
    64 + chunks_size(chunks.take(i))
}

/// The defect of the first chunk that has one.
pub open spec fn first_defect(chunks: Seq<ChunkModel>) -> Option<Error>
    decreases chunks.len(),
{
    if chunks.len() == 0 {
        None
    } else {
        match first_defect(chunks.drop_last()) {
            Some(e) => Some(e),
            None => chunks.last().defect(),
        }
    }
}

/// The 64 bytes that open an archive whose directory chunk starts at
/// `rsmp_address`.
pub open spec fn preamble_bytes(rsmp_address: u32) -> Seq<u8> {
    IFF_MAGIC@ + be_u32(rsmp_address)
}

impl IffModel {
    /// Every chunk is well formed.
    pub open spec fn wf(self) -> bool {
        all_wf(self.chunks)
    }

    /// The archive as a file.
    pub open spec fn bytes(self) -> Seq<u8> {
        preamble_bytes(self.rsmp_address) + chunks_bytes(self.chunks)
    }
}

/// The chunk that starts at `pos` in `bytes`, or why there is none.
pub open spec fn parse_chunk_at(bytes: Seq<u8>, pos: int) -> Result<ChunkModel, Error> {
    if pos + 76 > bytes.len() {
        Err(Error::Truncated)
    } else {
        let header = HeaderModel {
            tag: bytes.subrange(pos, pos + 4),
            size: u32_be_at(bytes, pos + 4),
            id: i16_be_at(bytes, pos + 8),
            flags: i16_be_at(bytes, pos + 10),
            label: bytes.subrange(pos + 12, pos + 76),
        };
        if !header.label.contains(0u8) {
            Err(Error::LabelNotTerminated { chunk_id: header.id })
        } else if header.size < 76 {
            Err(Error::ChunkSizeTooSmall { chunk_id: header.id })
        } else if pos + header.size > bytes.len() {
            Err(Error::Truncated)
        } else {
            Ok(ChunkModel { header, data: bytes.subrange(pos + 76, pos + header.size) })
        }
    }
}

/// The chunks that fill `bytes` from `pos` to its end exactly, or the first
/// reason why the bytes are not a run of chunks.
pub open spec fn parse_chunks(bytes: Seq<u8>, pos: int) -> Result<Seq<ChunkModel>, Error>
    decreases bytes.len() - pos,
{
    if pos >= bytes.len() {
        Ok(Seq::empty())
    } else {
        match parse_chunk_at(bytes, pos) {
            Err(e) => Err(e),
            Ok(chunk) => match parse_chunks(bytes, pos + chunk.header.size) {
                Err(e) => Err(e),
                Ok(rest) => Ok(seq![chunk] + rest),
            },
        }
    }
}

/// The archive that `bytes` hold, or the first reason why they hold none.
pub open spec fn parse_iff(bytes: Seq<u8>) -> Result<IffModel, Error> {
    if bytes.len() < 64 {
        Err(Error::Truncated)
    } else if bytes.subrange(0, 60) != IFF_MAGIC@ {
        Err(Error::BadMagic)
    } else {
        match parse_chunks(bytes, 64) {
            Err(e) => Err(e),
            Ok(chunks) => Ok(IffModel { rsmp_address: u32_be_at(bytes, 60), chunks }),
        }
    }
}

/// The header of a new chunk of type `tag` with `data_size` bytes of payload,
/// or why there is no such header.
pub open spec fn new_header(tag: Seq<u8>, data_size: int, id: i16, label: Seq<u8>) -> Result<
    HeaderModel,
    Error,
> {
    if label.contains(0u8) {
        Err(Error::LabelContainsNul { chunk_id: id })
    } else if label.len() + 1 > 64 {
        Err(Error::LabelTooLong { chunk_id: id })
    } else if 76 + data_size > u32::MAX {
        Err(Error::TooLarge { chunk_id: id })
    } else {
        Ok(
            HeaderModel {
                tag,
                size: (76 + data_size) as u32,
                id,
                flags: IFF_CHUNK_FLAGS,
                label: label + Seq::new((64 - label.len()) as nat, |i: int| 0u8),
            },
        )
    }
}

/// The new chunk of type `tag` that holds `data`, or why there is none.
pub open spec fn new_chunk(tag: Seq<u8>, id: i16, label: Seq<u8>, data: Seq<u8>) -> Result<
    ChunkModel,
    Error,
> {
    match new_header(tag, data.len() as int, id, label) {
        Ok(header) => Ok(ChunkModel { header, data }),
        Err(e) => Err(e),
    }
}

/// The header of a chunk: what it is, how large, and what it is called.
#[derive(Clone, Copy, Debug)]
pub struct IffChunkHeader {
    pub chunk_type: [u8; 4],
    pub size: u32,
    pub id: IffChunkId,
    pub flags: i16,
    pub label: [u8; 64],
}

impl View for IffChunkHeader {
    type V = HeaderModel;

    open spec fn view(&self) -> HeaderModel {
        HeaderModel {
            tag: self.chunk_type@,
            size: self.size,
            id: self.id.0,
            flags: self.flags,
            label: self.label@,
        }
    }
}

/// Whether `bytes` holds a zero.
pub fn has_nul(bytes: &[u8]) -> (found: bool)
    ensures
        found == bytes@.contains(0u8),
{
    let mut i: usize = 0;
    while i < bytes.len()
        invariant
            i <= bytes.len(),
            forall|j: int| 0 <= j < i ==> bytes@[j] != 0u8,
        decreases bytes.len() - i,
    {
        if bytes[i] == 0 {
            return true;
        }
        i += 1;
    }
    false
}

/// Whether the two tags are the same four bytes.
pub fn same_tag(a: &[u8; 4], b: &[u8; 4]) -> (same: bool)
    ensures
        same == (a@ == b@),
{
    let same = a[0] == b[0] && a[1] == b[1] && a[2] == b[2] && a[3] == b[3];
    proof {
        if same {
            assert(a@ =~= b@);
        }
    }
    same
}

impl IffChunkHeader {
    /// The header of a new chunk of type `chunk_type` that will hold
    /// `data_size` bytes and be called `label`.
    ///
    /// The label is stored with a terminating NUL and padded with NULs to
    /// 64 bytes; it cannot itself hold a NUL and must leave room for the
    /// terminator.
    pub fn new(chunk_type: &[u8; 4], data_size: usize, id: IffChunkId, label: &str) -> (r: Result<
        IffChunkHeader,
        Error,
    >)
        ensures
            match r {
                Ok(h) => new_header(chunk_type@, data_size as int, id.0, label.spec_bytes())
                    == Ok::<HeaderModel, Error>(h@),
                Err(e) => new_header(chunk_type@, data_size as int, id.0, label.spec_bytes())
                    == Err::<HeaderModel, Error>(e),
            },
    {
        IffChunkHeader::with_label_bytes(chunk_type, data_size, id, label.as_bytes())
    }

    /// The header of a new chunk whose label is given as bytes.
    pub fn with_label_bytes(
        chunk_type: &[u8; 4],
        data_size: usize,
        id: IffChunkId,
        label_bytes: &[u8],
    ) -> (r: Result<IffChunkHeader, Error>)
        ensures
            match r {
                Ok(h) => new_header(chunk_type@, data_size as int, id.0, label_bytes@) == Ok::<
                    HeaderModel,
                    Error,
                >(h@),
                Err(e) => new_header(chunk_type@, data_size as int, id.0, label_bytes@) == Err::<
                    HeaderModel,
                    Error,
                >(e),
            },
    {
        if has_nul(label_bytes) {
            return Err(Error::LabelContainsNul { chunk_id: id.as_i16() });
        }
        if label_bytes.len() > IFF_CHUNK_LABEL_SIZE - 1 {
            return Err(Error::LabelTooLong { chunk_id: id.as_i16() });
        }
        if data_size > 0xffff_ffff - IFF_CHUNK_HEADER_SIZE {
            return Err(Error::TooLarge { chunk_id: id.as_i16() });
        }
        let mut label_buffer = [0u8; 64];
        let mut i: usize = 0;
        while i < label_bytes.len()
            invariant
                i <= label_bytes.len() <= 63,
                forall|j: int| 0 <= j < i ==> label_buffer@[j] == label_bytes@[j],
                forall|j: int| i <= j < 64 ==> label_buffer@[j] == 0u8,
            decreases label_bytes.len() - i,
        {
            label_buffer[i] = label_bytes[i];
            i += 1;
        }
        assert(label_buffer@ =~= label_bytes@ + Seq::new(
            (64 - label_bytes@.len()) as nat,
            |i: int| 0u8,
        ));
        Ok(
            IffChunkHeader {
                chunk_type: *chunk_type,
                size: (IFF_CHUNK_HEADER_SIZE + data_size) as u32,
                id,
                flags: IFF_CHUNK_FLAGS,
                label: label_buffer,
            },
        )
    }

    /// Appends the 76 bytes of the header.
    pub fn write(&self, out: &mut Vec<u8>)
        ensures
            final(out)@ == old(out)@ + self@.bytes(),
    {
        push_all(out, self.chunk_type.as_slice());
        push_u32_be(out, self.size);
        push_i16_be(out, self.id.as_i16());
        push_i16_be(out, self.flags);
        push_all(out, self.label.as_slice());
        assert(out@ =~= old(out)@ + self@.bytes());
    }
}

/// One record of an archive: a header and the payload it describes.
#[derive(Debug)]
pub struct IffChunk {
    pub header: IffChunkHeader,
    pub data: Vec<u8>,
}

impl View for IffChunk {
    type V = ChunkModel;

    open spec fn view(&self) -> ChunkModel {
        ChunkModel { header: self.header@, data: self.data@ }
    }
}

impl Clone for IffChunk {
    fn clone(&self) -> (r: Self)
        ensures
            r@ == self@,
    {
        IffChunk { header: self.header, data: self.data.clone() }
    }
}

/// The models of the chunks of `chunks`, in order.
pub open spec fn models(chunks: Seq<IffChunk>) -> Seq<ChunkModel> {
    Seq::new(chunks.len(), |i: int| chunks[i]@)
}

impl IffChunk {
    /// The new chunk of type `chunk_type` that holds `data`.
    pub fn new(chunk_type: &[u8; 4], id: IffChunkId, label: &str, data: Vec<u8>) -> (r: Result<
        IffChunk,
        Error,
    >)
        ensures
            match r {
                Ok(c) => new_chunk(chunk_type@, id.0, label.spec_bytes(), data@) == Ok::<
                    ChunkModel,
                    Error,
                >(c@),
                Err(e) => new_chunk(chunk_type@, id.0, label.spec_bytes(), data@) == Err::<
                    ChunkModel,
                    Error,
                >(e),
            },
    {
        match IffChunkHeader::new(chunk_type, data.len(), id, label) {
            Ok(header) => Ok(IffChunk { header, data }),
            Err(e) => Err(e),
        }
    }

    /// The new chunk whose label is given as bytes.
    pub fn with_label_bytes(
        chunk_type: &[u8; 4],
        id: IffChunkId,
        label_bytes: &[u8],
        data: Vec<u8>,
    ) -> (r: Result<IffChunk, Error>)
        ensures
            match r {
                Ok(c) => new_chunk(chunk_type@, id.0, label_bytes@, data@) == Ok::<
                    ChunkModel,
                    Error,
                >(c@),
                Err(e) => new_chunk(chunk_type@, id.0, label_bytes@, data@) == Err::<
                    ChunkModel,
                    Error,
                >(e),
            },
    {
        match IffChunkHeader::with_label_bytes(chunk_type, data.len(), id, label_bytes) {
            Ok(header) => Ok(IffChunk { header, data }),
            Err(e) => Err(e),
        }
    }

    /// Whether the chunk can be written, and why not if it cannot.
    pub fn check(&self) -> (r: Result<(), Error>)
        ensures
            r is Ok <==> self@.wf(),
            r matches Err(e) ==> self@.defect() == Some(e),
            r is Ok ==> self@.defect() is None,
    {
        if !has_nul(self.label_slice()) {
            return Err(Error::LabelNotTerminated { chunk_id: self.header.id.as_i16() });
        }
        if self.data.len() > 0xffff_ffff - IFF_CHUNK_HEADER_SIZE || self.header.size as usize
            != IFF_CHUNK_HEADER_SIZE + self.data.len() {
            return Err(Error::SizeMismatch { chunk_id: self.header.id.as_i16() });
        }
        Ok(())
    }

    /// The label field, all 64 bytes of it.
    pub fn label_slice(&self) -> (s: &[u8])
        ensures
            s@ == self.header.label@,
    {
        self.header.label.as_slice()
    }

    /// Appends the header and the payload.
    pub fn write(&self, out: &mut Vec<u8>)
        ensures
            final(out)@ == old(out)@ + self@.bytes(),
    {
        self.header.write(out);
        push_all(out, self.data.as_slice());
        assert(out@ =~= old(out)@ + self@.bytes());
    }
}

/// An archive: where its directory chunk starts, and its chunks in file
/// order.
#[derive(Debug)]
pub struct Iff {
    pub rsmp_address: u32,
    pub chunks: Vec<IffChunk>,
}

impl View for Iff {
    type V = IffModel;

    open spec fn view(&self) -> IffModel {
        IffModel { rsmp_address: self.rsmp_address, chunks: models(self.chunks@) }
    }
}

/// A newly built chunk is well formed.
pub proof fn lemma_new_chunk_wf(tag: Seq<u8>, id: i16, label: Seq<u8>, data: Seq<u8>)
    requires
        tag.len() == 4,
        new_chunk(tag, id, label, data) is Ok,
    ensures
        new_chunk(tag, id, label, data)->Ok_0.wf(),
{
    let c = new_chunk(tag, id, label, data)->Ok_0;
    assert(c.header.label[label.len() as int] == 0u8);
}

/// Concatenation of chunk lists is concatenation of their bytes, and the
/// sizes add up.
pub proof fn lemma_chunks_concat(a: Seq<ChunkModel>, b: Seq<ChunkModel>)
    ensures
        chunks_bytes(a + b) == chunks_bytes(a) + chunks_bytes(b),
        chunks_size(a + b) == chunks_size(a) + chunks_size(b),
    decreases b.len(),
{
    if b.len() == 0 {
        assert(a + b =~= a);
        assert(chunks_bytes(a) + chunks_bytes(b) =~= chunks_bytes(a));
    } else {
        lemma_chunks_concat(a, b.drop_last());
        assert((a + b).drop_last() =~= a + b.drop_last());
        assert((a + b).last() == b.last());
        assert(chunks_bytes(a + b) =~= chunks_bytes(a) + chunks_bytes(b));
    }
}

/// A single chunk's bytes and size.
pub proof fn lemma_chunks_single(c: ChunkModel)
    ensures
        chunks_bytes(seq![c]) == c.bytes(),
        chunks_size(seq![c]) == c.header.size,
{
    let none = Seq::<ChunkModel>::empty();
    assert(seq![c].drop_last() =~= none);
    assert(chunks_bytes(none) =~= Seq::<u8>::empty());
    assert(chunks_size(none) == 0);
    assert(chunks_bytes(seq![c]) =~= c.bytes());
}

/// A header is 76 bytes long.
pub proof fn lemma_header_len(h: HeaderModel)
    requires
        h.tag.len() == 4,
        h.label.len() == 64,
    ensures
        h.bytes().len() == 76,
{
}

/// Well-formed chunks take as many bytes as their sizes add up to.
pub proof fn lemma_chunks_len(chunks: Seq<ChunkModel>)
    requires
        all_wf(chunks),
    ensures
        chunks_bytes(chunks).len() == chunks_size(chunks),
        chunks_size(chunks) >= 76 * chunks.len(),
    decreases chunks.len(),
{
    if chunks.len() > 0 {
        assert(chunks.last().wf());
        assert forall|i: int| 0 <= i < chunks.drop_last().len() implies (
        #[trigger] chunks.drop_last()[i]).wf() by {
            assert(chunks[i].wf());
        }
        lemma_chunks_len(chunks.drop_last());
    }
}

/// No chunk has a defect exactly when all are well formed.
pub proof fn lemma_first_defect(chunks: Seq<ChunkModel>)
    ensures
        first_defect(chunks) is None <==> all_wf(chunks),
    decreases chunks.len(),
{
    if chunks.len() > 0 {
        let front = chunks.drop_last();
        lemma_first_defect(front);
        if all_wf(chunks) {
            assert forall|i: int| 0 <= i < front.len() implies (#[trigger] front[i]).wf() by {
                assert(front[i] == chunks[i]);
            }
            assert(chunks.last().wf());
        }
        if first_defect(chunks) is None {
            assert forall|i: int| 0 <= i < chunks.len() implies (#[trigger] chunks[i]).wf() by {
                if i < front.len() {
                    assert(front[i] == chunks[i]);
                    assert(front[i].wf());
                } else {
                    assert(chunks[i] == chunks.last());
                }
            }
        }
    }
}

/// The fields of a header stand at their places in its bytes.
pub proof fn lemma_header_places(h: HeaderModel)
    requires
        h.tag.len() == 4,
        h.label.len() == 64,
    ensures
        h.bytes().len() == 76,
        h.bytes().subrange(0, 4) == h.tag,
        h.bytes().subrange(4, 8) == be_u32(h.size),
        h.bytes().subrange(8, 10) == be_i16(h.id),
        h.bytes().subrange(10, 12) == be_i16(h.flags),
        h.bytes().subrange(12, 76) == h.label,
{
    let b = h.bytes();
    assert(b.subrange(0, 4) =~= h.tag);
    assert(b.subrange(4, 8) =~= be_u32(h.size));
    assert(b.subrange(8, 10) =~= be_i16(h.id));
    assert(b.subrange(10, 12) =~= be_i16(h.flags));
    assert(b.subrange(12, 76) =~= h.label);
}

/// A well-formed chunk is read back from wherever its bytes stand.
pub proof fn lemma_parse_chunk_roundtrip(before: Seq<u8>, c: ChunkModel, after: Seq<u8>)
    requires
        c.wf(),
    ensures
        parse_chunk_at(before + c.bytes() + after, before.len() as int) == Ok::<ChunkModel, Error>(
            c,
        ),
{
    let bytes = before + c.bytes() + after;
    let pos = before.len() as int;
    let h = c.header;
    let hb = h.bytes();
    lemma_header_places(h);
    assert(c.bytes().len() == h.size);
    assert forall|j: int| 0 <= j < 76 implies bytes[pos + j] == hb[j] by {
        assert(bytes[pos + j] == c.bytes()[j]);
    }
    assert(bytes.subrange(pos, pos + 4) =~= hb.subrange(0, 4));
    assert(bytes.subrange(pos + 12, pos + 76) =~= hb.subrange(12, 76));
    assert(u32_be_at(bytes, pos + 4) == h.size) by {
        lemma_u32_roundtrip(h.size, Seq::empty(), Seq::empty());
        let e = Seq::<u8>::empty() + be_u32(h.size) + Seq::<u8>::empty();
        assert(e =~= be_u32(h.size));
        assert(hb.subrange(4, 8)[0] == hb[4] && hb.subrange(4, 8)[1] == hb[5] && hb.subrange(
            4,
            8,
        )[2] == hb[6] && hb.subrange(4, 8)[3] == hb[7]);
    }
    assert(i16_be_at(bytes, pos + 8) == h.id) by {
        lemma_u16_roundtrip(i16_bits(h.id), Seq::empty(), Seq::empty());
        let e = Seq::<u8>::empty() + be_u16(i16_bits(h.id)) + Seq::<u8>::empty();
        assert(e =~= be_i16(h.id));
        assert(hb.subrange(8, 10)[0] == hb[8] && hb.subrange(8, 10)[1] == hb[9]);
        lemma_bits_roundtrip(h.id, 0);
    }
    assert(i16_be_at(bytes, pos + 10) == h.flags) by {
        lemma_u16_roundtrip(i16_bits(h.flags), Seq::empty(), Seq::empty());
        let e = Seq::<u8>::empty() + be_u16(i16_bits(h.flags)) + Seq::<u8>::empty();
        assert(e =~= be_i16(h.flags));
        assert(hb.subrange(10, 12)[0] == hb[10] && hb.subrange(10, 12)[1] == hb[11]);
        lemma_bits_roundtrip(h.flags, 0);
    }
    assert(bytes.subrange(pos + 76, pos + h.size) =~= c.data);
}

/// Well-formed chunks are read back from behind any prefix.
pub proof fn lemma_parse_chunks_roundtrip(before: Seq<u8>, chunks: Seq<ChunkModel>)
    requires
        all_wf(chunks),
    ensures
        parse_chunks(before + chunks_bytes(chunks), before.len() as int) == Ok::<
            Seq<ChunkModel>,
            Error,
        >(chunks),
    decreases chunks.len(),
{
    let bytes = before + chunks_bytes(chunks);
    if chunks.len() == 0 {
        assert(bytes =~= before);
        assert(chunks =~= Seq::<ChunkModel>::empty());
    } else {
        let c = chunks[0];
        let rest = chunks.subrange(1, chunks.len() as int);
        let tail = chunks_bytes(rest);
        let pos = before.len() as int;
        assert(chunks =~= seq![c] + rest);
        assert(c.wf());
        assert forall|i: int| 0 <= i < rest.len() implies (#[trigger] rest[i]).wf() by {
            assert(rest[i] == chunks[i + 1]);
        }
        assert(chunks_bytes(chunks) == c.bytes() + tail) by {
            lemma_chunks_concat(seq![c], rest);
            lemma_chunks_single(c);
        }
        assert(c.bytes().len() == c.header.size) by {
            lemma_header_len(c.header);
        }
        assert(bytes == before + c.bytes() + tail) by {
            assert(before + (c.bytes() + tail) =~= before + c.bytes() + tail);
        }
        assert(parse_chunk_at(bytes, pos) == Ok::<ChunkModel, Error>(c)) by {
            lemma_parse_chunk_roundtrip(before, c, tail);
        }
        assert(parse_chunks(before + c.bytes() + tail, pos + c.header.size) == Ok::<
            Seq<ChunkModel>,
            Error,
        >(rest)) by {
            lemma_parse_chunks_roundtrip(before + c.bytes(), rest);
        }
        assert(pos < bytes.len());
    }
}

/// Reading what was written gives the archive back: for an archive of
/// well-formed chunks, header fields, chunk order and payload bytes all
/// survive the round trip.
pub proof fn lemma_roundtrip(a: IffModel)
    requires
        a.wf(),
    ensures
        parse_iff(a.bytes()) == Ok::<IffModel, Error>(a),
{
    let pre = preamble_bytes(a.rsmp_address);
    assert(pre.len() == 64);
    lemma_parse_chunks_roundtrip(pre, a.chunks);
    assert(a.bytes().subrange(0, 60) =~= IFF_MAGIC@);
    lemma_u32_roundtrip(a.rsmp_address, IFF_MAGIC@, chunks_bytes(a.chunks));
}

/// A chunk that was read is well formed and stands, byte for byte, where it
/// was read.
pub proof fn lemma_parse_chunk_sound(bytes: Seq<u8>, pos: int)
    requires
        0 <= pos,
        parse_chunk_at(bytes, pos) is Ok,
    ensures
        parse_chunk_at(bytes, pos)->Ok_0.wf(),
        parse_chunk_at(bytes, pos)->Ok_0.bytes() == bytes.subrange(
            pos,
            pos + parse_chunk_at(bytes, pos)->Ok_0.header.size,
        ),
{
    let c = parse_chunk_at(bytes, pos)->Ok_0;
    let h = c.header;
    lemma_u32_reencode(bytes, pos + 4);
    lemma_u16_reencode(bytes, pos + 8);
    lemma_u16_reencode(bytes, pos + 10);
    lemma_of_bits_roundtrip(u16_be_at(bytes, pos + 8), 0);
    lemma_of_bits_roundtrip(u16_be_at(bytes, pos + 10), 0);
    assert(c.bytes() =~= bytes.subrange(pos, pos + h.size));
}

/// What was read is well formed, and writing it gives the bytes that were
/// read from `pos` on.
pub proof fn lemma_parse_chunks_sound(bytes: Seq<u8>, pos: int)
    requires
        0 <= pos <= bytes.len(),
        parse_chunks(bytes, pos) is Ok,
    ensures
        all_wf(parse_chunks(bytes, pos)->Ok_0),
        chunks_bytes(parse_chunks(bytes, pos)->Ok_0) == bytes.subrange(pos, bytes.len() as int),
    decreases bytes.len() - pos,
{
    let chunks = parse_chunks(bytes, pos)->Ok_0;
    if pos >= bytes.len() {
        assert(chunks_bytes(chunks) =~= bytes.subrange(pos, bytes.len() as int));
    } else {
        let c = parse_chunk_at(bytes, pos)->Ok_0;
        let next = pos + c.header.size;
        let rest = parse_chunks(bytes, next)->Ok_0;
        lemma_parse_chunk_sound(bytes, pos);
        lemma_parse_chunks_sound(bytes, next);
        assert(chunks == seq![c] + rest);
        lemma_chunks_concat(seq![c], rest);
        lemma_chunks_single(c);
        assert(chunks_bytes(chunks) =~= bytes.subrange(pos, bytes.len() as int));
        assert forall|i: int| 0 <= i < chunks.len() implies (#[trigger] chunks[i]).wf() by {
            if i > 0 {
                assert(chunks[i] == rest[i - 1]);
            }
        }
    }
}

/// An archive that was read is well formed, and writing it gives the bytes
/// it was read from.
pub proof fn lemma_parse_sound(bytes: Seq<u8>)
    requires
        parse_iff(bytes) is Ok,
    ensures
        parse_iff(bytes)->Ok_0.wf(),
        parse_iff(bytes)->Ok_0.bytes() == bytes,
{
    let a = parse_iff(bytes)->Ok_0;
    lemma_parse_chunks_sound(bytes, 64);
    lemma_u32_reencode(bytes, 60);
    assert(a.bytes() =~= bytes);
}

/// Reads the chunk that starts at `pos`.
fn read_chunk(bytes: &[u8], pos: usize) -> (r: Result<IffChunk, Error>)
    requires
        pos < bytes.len(),
    ensures
        match r {
            Ok(c) => parse_chunk_at(bytes@, pos as int) == Ok::<ChunkModel, Error>(c@),
            Err(e) => parse_chunk_at(bytes@, pos as int) == Err::<ChunkModel, Error>(e),
        },
{
    if bytes.len() - pos < IFF_CHUNK_HEADER_SIZE {
        return Err(Error::Truncated);
    }
    let chunk_type = [bytes[pos], bytes[pos + 1], bytes[pos + 2], bytes[pos + 3]];
    let size = read_u32_be(bytes, pos + 4);
    let id = IffChunkId(read_i16_be(bytes, pos + 8));
    let flags = read_i16_be(bytes, pos + 10);
    let mut label = [0u8; 64];
    let mut i: usize = 0;
    while i < 64
        invariant
            i <= 64,
            pos + 76 <= bytes.len(),
            forall|j: int| 0 <= j < i ==> label@[j] == bytes@[pos + 12 + j],
        decreases 64 - i,
    {
        label[i] = bytes[pos + 12 + i];
        i += 1;
    }
    assert(label@ =~= bytes@.subrange(pos + 12, pos + 76));
    assert(chunk_type@ =~= bytes@.subrange(pos as int, pos + 4));
    if !has_nul(label.as_slice()) {
        return Err(Error::LabelNotTerminated { chunk_id: id.as_i16() });
    }
    if size < 76 {
        return Err(Error::ChunkSizeTooSmall { chunk_id: id.as_i16() });
    }
    if size as usize > bytes.len() - pos {
        return Err(Error::Truncated);
    }
    let data = slice_to_vec(slice_subrange(bytes, pos + 76, pos + size as usize));
    Ok(IffChunk { header: IffChunkHeader { chunk_type, size, id, flags, label }, data })
}

/// What a read that has come to `pos` with `done` will end in, given what
/// the rest of the bytes hold.
pub open spec fn parse_continue(done: Seq<ChunkModel>, rest: Result<Seq<ChunkModel>, Error>)
    -> Result<Seq<ChunkModel>, Error> {
    match rest {
        Ok(more) => Ok(done + more),
        Err(e) => Err(e),
    }
}

/// Reads an archive from the bytes of its file.
///
/// The signature must be present and the sizes that the chunks declare must
/// partition the bytes after the preamble exactly; a chunk that runs past
/// the end of the file is an error, never a partial result.
pub fn read_iff_file(bytes: &[u8]) -> (r: Result<Iff, Error>)
    ensures
        match r {
            Ok(iff) => parse_iff(bytes@) == Ok::<IffModel, Error>(iff@),
            Err(e) => parse_iff(bytes@) == Err::<IffModel, Error>(e),
        },
{
    if bytes.len() < IFF_HEADER_SIZE {
        return Err(Error::Truncated);
    }
    let mut i: usize = 0;
    while i < 60
        invariant
            i <= 60,
            bytes.len() >= 64,
            forall|j: int| 0 <= j < i ==> bytes@[j] == IFF_MAGIC@[j],
        decreases 60 - i,
    {
        if bytes[i] != IFF_MAGIC[i] {
            proof {
                assert(bytes@.subrange(0, 60)[i as int] != IFF_MAGIC@[i as int]);
            }
            return Err(Error::BadMagic);
        }
        i += 1;
    }
    assert(bytes@.subrange(0, 60) =~= IFF_MAGIC@);
    let rsmp_address = read_u32_be(bytes, 60);
    let mut chunks: Vec<IffChunk> = Vec::new();
    let mut pos: usize = IFF_HEADER_SIZE;
    assert(models(chunks@) =~= Seq::<ChunkModel>::empty());
    assert(parse_continue(models(chunks@), parse_chunks(bytes@, pos as int)) == parse_chunks(
        bytes@,
        64,
    )) by {
        match parse_chunks(bytes@, 64) {
            Ok(more) => assert(Seq::<ChunkModel>::empty() + more =~= more),
            Err(e) => {},
        }
    }
    while pos < bytes.len()
        invariant
            64 <= pos <= bytes.len(),
            bytes@.subrange(0, 60) == IFF_MAGIC@,
            parse_continue(models(chunks@), parse_chunks(bytes@, pos as int)) == parse_chunks(
                bytes@,
                64,
            ),
        decreases bytes.len() - pos,
    {
        let ghost done = models(chunks@);
        match read_chunk(bytes, pos) {
            Err(e) => {
                assert(parse_chunks(bytes@, pos as int) == Err::<Seq<ChunkModel>, Error>(e));
                return Err(e);
            },
            Ok(chunk) => {
                let ghost c = chunk@;
                let size = chunk.header.size as usize;
                chunks.push(chunk);
                proof {
                    assert(models(chunks@) =~= done.push(c));
                    match parse_chunks(bytes@, pos + size) {
                        Ok(more) => assert(done + (seq![c] + more) =~= done.push(c) + more),
                        Err(e) => {},
                    }
                }
                pos = pos + size;
            },
        }
    }
    assert(models(chunks@) + Seq::<ChunkModel>::empty() =~= models(chunks@));
    Ok(Iff { rsmp_address, chunks })
}

/// Checks every chunk of `chunks`, in order.
pub fn check_chunks(chunks: &Vec<IffChunk>) -> (r: Result<(), Error>)
    ensures
        r is Ok <==> all_wf(models(chunks@)),
        match r {
            Ok(_) => first_defect(models(chunks@)) is None,
            Err(e) => first_defect(models(chunks@)) == Some(e),
        },
{
    let mut i: usize = 0;
    proof {
        assert(models(chunks@).take(0) =~= Seq::<ChunkModel>::empty());
    }
    while i < chunks.len()
        invariant
            i <= chunks.len(),
            first_defect(models(chunks@).take(i as int)) is None,
            forall|j: int| 0 <= j < i ==> (#[trigger] models(chunks@)[j]).wf(),
        decreases chunks.len() - i,
    {
        let ghost all = models(chunks@);
        proof {
            assert(all.take(i + 1).drop_last() =~= all.take(i as int));
            assert(all.take(i + 1).last() == chunks@[i as int]@);
        }
        match chunks[i].check() {
            Err(e) => {
                proof {
                    lemma_defect_stays(all.take(i + 1), all.skip(i + 1));
                    assert(all.take(i + 1) + all.skip(i + 1) =~= all);
                    assert(!all[i as int].wf());
                }
                return Err(e);
            },
            Ok(_) => {},
        }
        i += 1;
    }
    proof {
        assert(models(chunks@).take(i as int) =~= models(chunks@));
    }
    Ok(())
}

/// Once a chunk has a defect, chunks that follow do not change which
/// defect comes first.
pub proof fn lemma_defect_stays(a: Seq<ChunkModel>, b: Seq<ChunkModel>)
    requires
        first_defect(a) is Some,
    ensures
        first_defect(a + b) == first_defect(a),
    decreases b.len(),
{
    if b.len() == 0 {
        assert(a + b =~= a);
    } else {
        assert((a + b).drop_last() =~= a + b.drop_last());
        lemma_defect_stays(a, b.drop_last());
    }
}

/// Writes an archive as the bytes of its file: the preamble with the
/// directory offset the archive carries, then the chunks in list order.
///
/// Every chunk must be writable: its label terminated within its field and
/// its declared size that of its header and payload.
pub fn write_iff_file(iff: &Iff) -> (r: Result<Vec<u8>, Error>)
    ensures
        match r {
            Ok(bytes) => iff@.wf() && bytes@ == iff@.bytes(),
            Err(e) => !iff@.wf() && first_defect(iff@.chunks) == Some(e),
        },
{
    match check_chunks(&iff.chunks) {
        Err(e) => {
            return Err(e);
        },
        Ok(_) => {},
    }
    let mut out: Vec<u8> = Vec::new();
    push_all(&mut out, IFF_MAGIC.as_slice());
    push_u32_be(&mut out, iff.rsmp_address);
    assert(out@ =~= preamble_bytes(iff.rsmp_address));
    let mut i: usize = 0;
    proof {
        assert(models(iff.chunks@).take(0) =~= Seq::<ChunkModel>::empty());
        assert(out@ =~= preamble_bytes(iff.rsmp_address) + chunks_bytes(
            models(iff.chunks@).take(0),
        ));
    }
    while i < iff.chunks.len()
        invariant
            i <= iff.chunks.len(),
            out@ == preamble_bytes(iff.rsmp_address) + chunks_bytes(
                models(iff.chunks@).take(i as int),
            ),
        decreases iff.chunks.len() - i,
    {
        let ghost all = models(iff.chunks@);
        iff.chunks[i].write(&mut out);
        proof {
            assert(all.take(i + 1).drop_last() =~= all.take(i as int));
            assert(all.take(i + 1).last() == iff.chunks@[i as int]@);
            assert(out@ =~= preamble_bytes(iff.rsmp_address) + chunks_bytes(all.take(i + 1)));
        }
        i += 1;
    }
    proof {
        assert(models(iff.chunks@).take(i as int) =~= models(iff.chunks@));
    }
    Ok(out)
}

} // verus!
