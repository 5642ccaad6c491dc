use sims_iff::error::{Error, ErrorKind};
use sims_iff::guid::{
    map_guids, rebuild_guid_map, replace_guids_in_bhavs, replace_guids_in_code, GuidEntry,
    GuidMap,
};
use sims_iff::iff::{IffChunk, IffChunkId};

fn objd(id: i16, guid: i32) -> IffChunk {
    let mut data = vec![0u8; 216];
    data[28..32].copy_from_slice(&guid.to_le_bytes());
    IffChunk::new(b"OBJD", IffChunkId::new(id), "object", data).unwrap()
}

fn table(entries: &[(i16, i32)]) -> GuidMap {
    GuidMap { entries: entries.iter().map(|&(id, guid)| GuidEntry { id, guid }).collect() }
}

fn instruction(opcode: u8, operand: i32) -> Vec<u8> {
    let mut bytes = vec![opcode, 1, 2, 3];
    bytes.extend_from_slice(&operand.to_le_bytes());
    bytes.extend_from_slice(&[9, 9, 9, 9]);
    bytes
}

#[test]
fn guids_are_read_from_object_definitions() {
    let chunks = vec![
        IffChunk::new(b"STR#", IffChunkId::new(7), "", vec![0; 40]).unwrap(),
        objd(7, 0x11223344),
        objd(-4, -1),
    ];
    let guids = map_guids(&chunks).unwrap();
    assert_eq!(guids.len(), 2);
    assert_eq!(guids.get(IffChunkId::new(7)), Some(0x11223344));
    assert_eq!(guids.get(IffChunkId::new(-4)), Some(-1));
    assert_eq!(guids.get(IffChunkId::new(8)), None);
}

#[test]
fn first_definition_of_an_id_counts() {
    let chunks = vec![objd(7, 100), objd(7, 200), objd(8, 300)];
    let guids = map_guids(&chunks).unwrap();
    assert_eq!(guids.entries, vec![GuidEntry { id: 7, guid: 100 }, GuidEntry { id: 8, guid: 300 }]);
}

#[test]
fn archive_without_objects_has_no_table() {
    let chunks = vec![IffChunk::new(b"STR#", IffChunkId::new(7), "", vec![0; 40]).unwrap()];
    let error = map_guids(&chunks).unwrap_err();
    assert_eq!(error, Error::NoGuids);
    assert_eq!(error.kind(), ErrorKind::Consistency);
    assert_eq!(map_guids(&[]).unwrap_err(), Error::NoGuids);
}

#[test]
fn short_object_definition_is_a_decode_error() {
    let chunks =
        vec![objd(1, 5), IffChunk::new(b"OBJD", IffChunkId::new(9), "", vec![0; 31]).unwrap()];
    let error = map_guids(&chunks).unwrap_err();
    assert_eq!(error, Error::ObjectDefinitionTooShort { chunk_id: 9 });
    assert_eq!(error.kind(), ErrorKind::Decode);
}

#[test]
fn object_is_found_by_its_guid() {
    let guids = table(&[(1, 50), (2, 60), (3, 50)]);
    assert_eq!(guids.find_object(60), Some(IffChunkId::new(2)));
    assert_eq!(guids.find_object(50), Some(IffChunkId::new(1)));
    assert_eq!(guids.find_object(70), None);
    assert!(!guids.is_empty());
    assert!(GuidMap::new().is_empty());
}

#[test]
fn tables_for_other_objects_do_not_agree() {
    let input = table(&[(1, 50), (2, 60)]);
    assert_eq!(
        rebuild_guid_map(&input, &table(&[(1, 50)]), true),
        Err(Error::GuidKeysDiffer)
    );
    assert_eq!(
        rebuild_guid_map(&input, &table(&[(1, 50), (3, 60)]), false),
        Err(Error::GuidKeysDiffer)
    );
    assert_eq!(
        rebuild_guid_map(&table(&[(1, 50)]), &input, false),
        Err(Error::GuidKeysDiffer)
    );
}

#[test]
fn variant_must_change_a_guid() {
    let input = table(&[(1, 50), (2, 60)]);
    let same = table(&[(2, 60), (1, 50)]);
    let other = table(&[(1, 50), (2, 61)]);
    assert_eq!(rebuild_guid_map(&input, &same, false), Err(Error::GuidsIdentical));
    assert_eq!(rebuild_guid_map(&input, &same, true), Ok(()));
    assert_eq!(rebuild_guid_map(&input, &other, false), Ok(()));
    assert_eq!(rebuild_guid_map(&input, &other, true), Ok(()));
}

#[test]
fn operands_of_the_three_opcodes_are_rewritten() {
    let input = table(&[(1, 0x0a0b0c0d), (2, 77)]);
    let output = table(&[(1, 0x01020304), (2, 78)]);
    let mut code = Vec::new();
    for opcode in [31u8, 32, 42, 30, 43, 0] {
        code.extend(instruction(opcode, 0x0a0b0c0d));
    }
    code.extend(instruction(31, 5));
    code.extend(instruction(42, 77));
    let before = code.clone();
    replace_guids_in_code(&mut code, &input, &output);
    let mut expected = Vec::new();
    for opcode in [31u8, 32, 42] {
        expected.extend(instruction(opcode, 0x01020304));
    }
    for opcode in [30u8, 43, 0] {
        expected.extend(instruction(opcode, 0x0a0b0c0d));
    }
    expected.extend(instruction(31, 5));
    expected.extend(instruction(42, 78));
    assert_eq!(code, expected);
    assert_eq!(code.len(), before.len());
    assert_eq!(&code[4..8], &[4, 3, 2, 1]);
}

#[test]
fn same_tables_leave_code_as_it_is() {
    let guids = table(&[(1, 10), (2, 20)]);
    let mut code = instruction(31, 10);
    code.extend(instruction(32, 20));
    let before = code.clone();
    replace_guids_in_code(&mut code, &guids, &guids);
    assert_eq!(code, before);
}

#[test]
fn operand_of_an_object_missing_from_the_output_stays() {
    let mut code = instruction(31, 10);
    let before = code.clone();
    replace_guids_in_code(&mut code, &table(&[(1, 10)]), &table(&[(2, 99)]));
    assert_eq!(code, before);
}

#[test]
fn only_bytecode_chunks_are_rewritten() {
    let input = table(&[(1, 10)]);
    let output = table(&[(1, 11)]);
    let mut chunks = vec![
        IffChunk::new(b"BHAV", IffChunkId::new(1), "main", instruction(31, 10)).unwrap(),
        IffChunk::new(b"STR#", IffChunkId::new(1), "text", instruction(31, 10)).unwrap(),
        IffChunk::new(b"BHAV", IffChunkId::new(2), "", vec![]).unwrap(),
    ];
    replace_guids_in_bhavs(&mut chunks, &input, &output).unwrap();
    assert_eq!(chunks[0].data, instruction(31, 11));
    assert_eq!(chunks[1].data, instruction(31, 10));
    assert_eq!(chunks[0].header.size, 88);
    assert_eq!(&chunks[0].header.label[..5], b"main\0");
}

#[test]
fn bytecode_must_be_whole_instructions() {
    let mut code = instruction(31, 10);
    code.push(0);
    let mut chunks = vec![
        IffChunk::new(b"BHAV", IffChunkId::new(3), "", instruction(31, 10)).unwrap(),
        IffChunk::new(b"BHAV", IffChunkId::new(4), "", code.clone()).unwrap(),
    ];
    let error =
        replace_guids_in_bhavs(&mut chunks, &table(&[(1, 10)]), &table(&[(1, 11)])).unwrap_err();
    assert_eq!(error, Error::BehaviorMisaligned { chunk_id: 4 });
    assert_eq!(chunks[0].data, instruction(31, 10));
    assert_eq!(chunks[1].data, code);
}
