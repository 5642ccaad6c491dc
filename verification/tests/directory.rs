use sims_iff::error::Error;
use sims_iff::iff::{read_iff_file, write_iff_file, Iff, IffChunk, IffChunkId};
use sims_iff::rsmp::create_rsmp_chunk;

fn chunk(tag: &[u8; 4], id: i16, label: &str, data: Vec<u8>) -> IffChunk {
    IffChunk::new(tag, IffChunkId::new(id), label, data).unwrap()
}

#[test]
fn directory_lists_types_and_entries() {
    let chunks = vec![chunk(b"STR#", 1, "a", vec![1, 2, 3]), chunk(b"BHAV", 2, "", vec![0; 12])];
    let directory = create_rsmp_chunk(&chunks).unwrap();
    let mut expected = Vec::new();
    expected.extend_from_slice(&[0, 0, 0, 0, 0, 0, 0, 0]);
    expected.extend_from_slice(b"pmsr");
    expected.extend_from_slice(&132u32.to_le_bytes());
    expected.extend_from_slice(&2u32.to_le_bytes());
    expected.extend_from_slice(b"#RTS");
    expected.extend_from_slice(&1u32.to_le_bytes());
    expected.extend_from_slice(&64u32.to_le_bytes());
    expected.extend_from_slice(&[1, 0, 0x10, 0, b'a', 0]);
    expected.extend_from_slice(b"VAHB");
    expected.extend_from_slice(&1u32.to_le_bytes());
    expected.extend_from_slice(&143u32.to_le_bytes());
    expected.extend_from_slice(&[2, 0, 0x10, 0, 0, 0]);
    assert_eq!(directory.data, expected);
    assert_eq!(&directory.header.chunk_type, b"rsmp");
    assert_eq!(directory.header.size, 132);
    assert_eq!(directory.header.id, IffChunkId::new(0));
    assert_eq!(directory.header.flags, 0x10);
    assert_eq!(directory.header.label, [0u8; 64]);
}

#[test]
fn chunks_of_one_type_are_listed_together_in_file_order() {
    let chunks = vec![
        chunk(b"BHAV", 1, "ab", vec![]),
        chunk(b"STR#", 2, "abc", vec![7]),
        chunk(b"BHAV", 3, "", vec![0; 12]),
    ];
    let directory = create_rsmp_chunk(&chunks).unwrap();
    let body = &directory.data[20..];
    let mut expected = Vec::new();
    expected.extend_from_slice(b"VAHB");
    expected.extend_from_slice(&2u32.to_le_bytes());
    expected.extend_from_slice(&64u32.to_le_bytes());
    expected.extend_from_slice(&[1, 0, 0x10, 0, b'a', b'b', 0, 0]);
    expected.extend_from_slice(&(64u32 + 76 + 77).to_le_bytes());
    expected.extend_from_slice(&[3, 0, 0x10, 0, 0, 0]);
    expected.extend_from_slice(b"#RTS");
    expected.extend_from_slice(&1u32.to_le_bytes());
    expected.extend_from_slice(&(64u32 + 76).to_le_bytes());
    expected.extend_from_slice(&[2, 0, 0x10, 0, b'a', b'b', b'c', 0]);
    assert_eq!(body, &expected[..]);
    assert_eq!(&directory.data[16..20], &2u32.to_le_bytes());
}

#[test]
fn directory_of_nothing_has_no_types() {
    let directory = create_rsmp_chunk(&Vec::new()).unwrap();
    assert_eq!(directory.data.len(), 20);
    assert_eq!(&directory.data[12..16], &96u32.to_le_bytes());
    assert_eq!(&directory.data[16..20], &0u32.to_le_bytes());
}

#[test]
fn recorded_offsets_are_where_the_chunks_stand() {
    let mut chunks = vec![
        chunk(b"AAAA", 1, "first", vec![1; 5]),
        chunk(b"BBBB", 2, "second", vec![2; 9]),
        chunk(b"AAAA", 3, "third", vec![3; 1]),
    ];
    let directory = create_rsmp_chunk(&chunks).unwrap();
    chunks.push(directory);
    let bytes = write_iff_file(&Iff { rsmp_address: 0, chunks }).unwrap();
    let archive = read_iff_file(&bytes).unwrap();
    let body = &archive.chunks[3].data[20..];
    let first = u32::from_le_bytes(body[8..12].try_into().unwrap()) as usize;
    assert_eq!(&bytes[first..first + 4], b"AAAA");
    assert_eq!(&bytes[first + 8..first + 10], &[0, 1]);
    let third = u32::from_le_bytes(body[22..26].try_into().unwrap()) as usize;
    assert_eq!(&bytes[third..third + 4], b"AAAA");
    assert_eq!(&bytes[third + 8..third + 10], &[0, 3]);
    let second = u32::from_le_bytes(body[44..48].try_into().unwrap()) as usize;
    assert_eq!(&bytes[second..second + 4], b"BBBB");
    assert_eq!(second, 64 + 81);
}

#[test]
fn directory_needs_writable_chunks() {
    let mut broken = chunk(b"AAAA", 1, "first", vec![1; 5]);
    broken.header.size = 80;
    assert_eq!(create_rsmp_chunk(&vec![broken]).unwrap_err(), Error::SizeMismatch { chunk_id: 1 });
    let mut unterminated = chunk(b"AAAA", 1, "first", vec![1; 5]);
    unterminated.header.label = [1; 64];
    assert_eq!(
        create_rsmp_chunk(&vec![unterminated]).unwrap_err(),
        Error::LabelNotTerminated { chunk_id: 1 }
    );
}

#[test]
fn longest_label_is_listed_with_its_terminator() {
    let label = "y".repeat(63);
    let directory = create_rsmp_chunk(&vec![chunk(b"STR#", 5, &label, vec![9])]).unwrap();
    let body = &directory.data[20..];
    let mut expected = Vec::new();
    expected.extend_from_slice(b"#RTS");
    expected.extend_from_slice(&1u32.to_le_bytes());
    expected.extend_from_slice(&64u32.to_le_bytes());
    expected.extend_from_slice(&[5, 0, 0x10, 0]);
    expected.extend_from_slice(label.as_bytes());
    expected.push(0);
    assert_eq!(body, &expected[..]);
    let archive = Iff { rsmp_address: 0, chunks: vec![chunk(b"STR#", 5, &label, vec![9])] };
    let read = read_iff_file(&write_iff_file(&archive).unwrap()).unwrap();
    assert_eq!(read.chunks[0].header.label, archive.chunks[0].header.label);
}
