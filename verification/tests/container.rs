use sims_iff::error::{Error, ErrorKind};
use sims_iff::iff::{
    read_iff_file, write_iff_file, Iff, IffChunk, IffChunkHeader, IffChunkId, IFF_MAGIC,
};

fn chunk(tag: &[u8; 4], id: i16, label: &str, data: Vec<u8>) -> IffChunk {
    IffChunk::new(tag, IffChunkId::new(id), label, data).unwrap()
}

fn preamble(address: u32) -> Vec<u8> {
    let mut bytes = IFF_MAGIC.to_vec();
    bytes.extend_from_slice(&address.to_be_bytes());
    bytes
}

#[test]
fn chunk_id_is_widened() {
    assert_eq!(IffChunkId::new(-3).as_i16(), -3);
    assert_eq!(IffChunkId::new(-3).as_i32(), -3);
}

#[test]
fn chunk_id_advances_by_one() {
    let mut id = IffChunkId::new(41);
    id.advance();
    assert_eq!(id, IffChunkId::new(42));
}

#[test]
fn chunk_id_offset_stops_at_the_limits() {
    assert_eq!(IffChunkId::new(10).offset(5), Some(IffChunkId::new(15)));
    assert_eq!(IffChunkId::new(i16::MAX).offset(1), None);
    assert_eq!(IffChunkId::new(i16::MIN).offset(-1), None);
}

#[test]
fn header_is_written_field_by_field() {
    let header = IffChunkHeader::new(b"BHAV", 12, IffChunkId::new(0x0102), "ab").unwrap();
    let mut bytes = Vec::new();
    header.write(&mut bytes);
    let mut expected = vec![0x42, 0x48, 0x41, 0x56, 0, 0, 0, 88, 1, 2, 0, 0x10, b'a', b'b'];
    expected.resize(76, 0);
    assert_eq!(bytes, expected);
}

#[test]
fn negative_chunk_id_is_written_in_twos_complement() {
    let header = IffChunkHeader::new(b"BHAV", 0, IffChunkId::new(-2), "").unwrap();
    let mut bytes = Vec::new();
    header.write(&mut bytes);
    assert_eq!(&bytes[8..10], &[0xff, 0xfe]);
}

#[test]
fn label_must_leave_room_for_its_terminator() {
    let fits = "x".repeat(63);
    let too_long = "x".repeat(64);
    let header = IffChunkHeader::new(b"STR#", 0, IffChunkId::new(1), &fits).unwrap();
    assert_eq!(&header.label[..63], fits.as_bytes());
    assert_eq!(header.label[63], 0);
    let error = IffChunkHeader::new(b"STR#", 0, IffChunkId::new(1), &too_long).unwrap_err();
    assert_eq!(error, Error::LabelTooLong { chunk_id: 1 });
    assert_eq!(error.kind(), ErrorKind::Schema);
}

#[test]
fn label_cannot_hold_a_nul() {
    let error = IffChunkHeader::new(b"STR#", 0, IffChunkId::new(1), "a\0b").unwrap_err();
    assert_eq!(error, Error::LabelContainsNul { chunk_id: 1 });
}

#[test]
fn archive_round_trip() {
    let archive = Iff {
        rsmp_address: 0x01020304,
        chunks: vec![
            chunk(b"STR#", 5, "names", vec![1, 2, 3]),
            chunk(b"BHAV", -7, "", vec![]),
            chunk(b"XXXX", 0, "last", vec![0xff; 40]),
        ],
    };
    let bytes = write_iff_file(&archive).unwrap();
    assert_eq!(bytes.len(), 64 + 79 + 76 + 116);
    assert_eq!(&bytes[..60], &IFF_MAGIC[..]);
    assert_eq!(&bytes[60..64], &[1, 2, 3, 4]);
    let read = read_iff_file(&bytes).unwrap();
    assert_eq!(read.rsmp_address, archive.rsmp_address);
    assert_eq!(read.chunks.len(), 3);
    for (a, b) in read.chunks.iter().zip(archive.chunks.iter()) {
        assert_eq!(a.header.chunk_type, b.header.chunk_type);
        assert_eq!(a.header.size, b.header.size);
        assert_eq!(a.header.id, b.header.id);
        assert_eq!(a.header.flags, b.header.flags);
        assert_eq!(a.header.label, b.header.label);
        assert_eq!(a.data, b.data);
    }
    assert_eq!(write_iff_file(&read).unwrap(), bytes);
}

#[test]
fn archive_without_chunks_is_its_preamble() {
    let archive = Iff { rsmp_address: 64, chunks: vec![] };
    let bytes = write_iff_file(&archive).unwrap();
    assert_eq!(bytes, preamble(64));
    assert!(read_iff_file(&bytes).unwrap().chunks.is_empty());
}

#[test]
fn flags_and_label_tail_survive_reading_and_writing() {
    let mut bytes = preamble(0);
    bytes.extend_from_slice(b"ABCD");
    bytes.extend_from_slice(&77u32.to_be_bytes());
    bytes.extend_from_slice(&9i16.to_be_bytes());
    bytes.extend_from_slice(&0x1234i16.to_be_bytes());
    let mut label = [0x55u8; 64];
    label[3] = 0;
    bytes.extend_from_slice(&label);
    bytes.push(0xaa);
    let read = read_iff_file(&bytes).unwrap();
    assert_eq!(read.chunks[0].header.flags, 0x1234);
    assert_eq!(read.chunks[0].header.label, label);
    assert_eq!(write_iff_file(&read).unwrap(), bytes);
}

#[test]
fn short_file_is_truncated() {
    let error = read_iff_file(&IFF_MAGIC[..]).unwrap_err();
    assert_eq!(error, Error::Truncated);
    assert_eq!(error.kind(), ErrorKind::Decode);
}

#[test]
fn wrong_signature_is_bad_magic() {
    let mut bytes = preamble(0);
    bytes[0] = b'X';
    assert_eq!(read_iff_file(&bytes).unwrap_err(), Error::BadMagic);
}

#[test]
fn chunk_cut_short_is_truncated() {
    let archive = Iff { rsmp_address: 0, chunks: vec![chunk(b"STR#", 1, "a", vec![1, 2, 3])] };
    let bytes = write_iff_file(&archive).unwrap();
    assert_eq!(read_iff_file(&bytes[..bytes.len() - 1]).unwrap_err(), Error::Truncated);
    assert_eq!(read_iff_file(&bytes[..64 + 10]).unwrap_err(), Error::Truncated);
}

#[test]
fn bytes_after_the_last_chunk_are_an_error() {
    let archive = Iff { rsmp_address: 0, chunks: vec![chunk(b"STR#", 1, "a", vec![1, 2, 3])] };
    let mut bytes = write_iff_file(&archive).unwrap();
    bytes.push(0);
    assert_eq!(read_iff_file(&bytes).unwrap_err(), Error::Truncated);
}

#[test]
fn declared_size_below_header_size_is_an_error() {
    let archive = Iff { rsmp_address: 0, chunks: vec![chunk(b"STR#", 1, "a", vec![])] };
    let mut bytes = write_iff_file(&archive).unwrap();
    bytes[64 + 7] = 75;
    assert_eq!(read_iff_file(&bytes).unwrap_err(), Error::ChunkSizeTooSmall { chunk_id: 1 });
}

#[test]
fn label_without_terminator_is_an_error() {
    let archive = Iff { rsmp_address: 0, chunks: vec![chunk(b"STR#", 1, "a", vec![])] };
    let mut bytes = write_iff_file(&archive).unwrap();
    for byte in &mut bytes[64 + 12..64 + 76] {
        *byte = b'z';
    }
    assert_eq!(read_iff_file(&bytes).unwrap_err(), Error::LabelNotTerminated { chunk_id: 1 });
}

#[test]
fn chunk_with_wrong_size_cannot_be_written() {
    let mut broken = chunk(b"STR#", 1, "a", vec![1, 2, 3]);
    broken.data.push(4);
    assert_eq!(broken.check(), Err(Error::SizeMismatch { chunk_id: 1 }));
    let archive = Iff { rsmp_address: 0, chunks: vec![chunk(b"STR#", 2, "b", vec![]), broken] };
    assert_eq!(write_iff_file(&archive).unwrap_err(), Error::SizeMismatch { chunk_id: 1 });
}

#[test]
fn chunk_with_unterminated_label_cannot_be_written() {
    let mut broken = chunk(b"STR#", 1, "a", vec![]);
    broken.header.label = [b'q'; 64];
    let archive = Iff { rsmp_address: 0, chunks: vec![broken] };
    assert_eq!(write_iff_file(&archive).unwrap_err(), Error::LabelNotTerminated { chunk_id: 1 });
}

#[test]
fn cloned_chunk_is_the_same_chunk() {
    let original = chunk(b"STR#", 1, "a", vec![1, 2, 3]);
    let copy = original.clone();
    assert_eq!(copy.header.label, original.header.label);
    assert_eq!(copy.data, original.data);
}
