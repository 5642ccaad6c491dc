use sims_iff::bitmap::{Bitmap, ChannelImage, ImageStore};
use sims_iff::dgrp::{DrawGroup, DrawGroupItem, DrawGroupItemList};
use sims_iff::error::{ArchiveError, Error, ErrorKind, PixelError};
use sims_iff::iff::{read_iff_file, write_iff_file, Iff, IffChunk, IffChunkId};
use sims_iff::iff_description::IffDescription;
use sims_iff::objd::ObjectDefinition;
use sims_iff::palt::create_palt_chunks;
use sims_iff::rebuild::{keep_chunks, rebuild_iff_file, replaceable, uses_sprite};
use sims_iff::slot::{Slot, SlotDescriptor};
use sims_iff::spr::{
    Sprite, SpriteChannel, SpriteChannelType, SpriteFrame, SpriteIndex, SpriteType,
};
use sims_iff::sprite::{Rotation, SpriteBounds, SpriteImageDescription, SpriteOffsets, ZoomLevel};

const GUID_IN: i32 = 0x0a0b0c0d;
const GUID_OUT: i32 = 0x01020304;

fn chunk(tag: &[u8; 4], id: i16, label: &str, data: Vec<u8>) -> IffChunk {
    IffChunk::new(tag, IffChunkId::new(id), label, data).unwrap()
}

fn objd(id: i16, guid: i32) -> IffChunk {
    let mut data = vec![0u8; 216];
    data[28..32].copy_from_slice(&guid.to_le_bytes());
    chunk(b"OBJD", id, "old object", data)
}

fn instruction(opcode: u8, operand: i32) -> Vec<u8> {
    let mut bytes = vec![opcode, 1, 2, 3];
    bytes.extend_from_slice(&operand.to_le_bytes());
    bytes.extend_from_slice(&[9, 9, 9, 9]);
    bytes
}

fn code() -> Vec<u8> {
    let mut bytes = instruction(31, GUID_IN);
    bytes.extend(instruction(5, GUID_IN));
    bytes.extend(instruction(42, 99));
    bytes
}

fn archive(guid: i32) -> Vec<u8> {
    let chunks = vec![
        chunk(b"rsmp", 0, "", vec![0; 20]),
        chunk(b"BHAV", 4096, "main", code()),
        objd(7, guid),
        chunk(b"SPR2", 200, "stale", vec![1, 2, 3]),
        chunk(b"STR#", 301, "catalog", b"a chair".to_vec()),
        chunk(b"SLOT", 128, "stale", vec![]),
        chunk(b"DGRP", 100, "stale", vec![]),
        chunk(b"PALT", 5, "stale", vec![]),
        chunk(b"SPR#", 300, "stale", vec![]),
        chunk(b"CTSS", 2000, "", vec![7; 5]),
    ];
    write_iff_file(&Iff { rsmp_address: 64, chunks }).unwrap()
}

fn bitmap(pixels: Vec<u8>) -> Bitmap {
    let mut palette = vec![[1u8, 2, 3]; 256];
    palette[0] = [255, 255, 0];
    Bitmap { width: 2, height: 2, pixels, palette }
}

fn images() -> ImageStore {
    ImageStore {
        images: vec![
            ChannelImage { path: "s/p.bmp".to_owned(), bitmap: bitmap(vec![0, 9, 8, 0]) },
            ChannelImage { path: "s/z.bmp".to_owned(), bitmap: bitmap(vec![255, 3, 4, 255]) },
            ChannelImage { path: "s/a.bmp".to_owned(), bitmap: bitmap(vec![0, 255, 128, 0]) },
            ChannelImage { path: "wall.bmp".to_owned(), bitmap: bitmap(vec![255, 128, 128, 255]) },
        ],
    }
}

fn frame_description() -> SpriteImageDescription {
    SpriteImageDescription {
        width: 2,
        height: 2,
        bounds: SpriteBounds { left: 0, top: 0, right: 2, bottom: 2 },
        offsets: SpriteOffsets { x: 0, y: 0, x_flipped: 0 },
        palette_id: IffChunkId::new(5),
        transparent_color_index: 0,
    }
}

fn modern_sprite(id: i16) -> Sprite {
    let frame = SpriteFrame::new(
        0,
        ZoomLevel::Zero,
        Rotation::NorthWest,
        &frame_description(),
        "s/p.bmp",
        "s/z.bmp",
        "s/a.bmp",
    );
    Sprite::new("sprite", IffChunkId::new(id), IffChunkId::new(5), vec![frame])
}

fn wall_sprite() -> Sprite {
    let mut frame = SpriteFrame::new(
        0,
        ZoomLevel::Zero,
        Rotation::NorthWest,
        &frame_description(),
        "",
        "",
        "",
    );
    frame.sprite_channels = vec![SpriteChannel {
        channel_type: SpriteChannelType::Depth,
        file_path_relative: "wall.bmp".to_owned(),
    }];
    Sprite {
        chunk_label: "wall".to_owned(),
        chunk_id: IffChunkId::new(300),
        sprite_type: SpriteType::Spr1,
        multi_tile: 0,
        palette_chunk_id: IffChunkId::new(5),
        sprite_frame_count: 1,
        is_custom_wall_style: true,
        sprite_frames: vec![frame],
    }
}

fn description() -> IffDescription {
    let mut description = IffDescription::default();
    let mut definition = ObjectDefinition::default();
    definition.chunk_label = "chair".to_owned();
    definition.chunk_id = IffChunkId::new(7);
    definition.guid = 0x55555555;
    description.object_definitions.object_definitions.push(definition);
    description.slots.slots.push(Slot {
        chunk_label: "slots".to_owned(),
        chunk_id: IffChunkId::new(128),
        slot_descriptors: vec![SlotDescriptor::default()],
    });
    description.draw_groups.draw_groups.push(DrawGroup {
        chunk_label: "image".to_owned(),
        chunk_id: IffChunkId::new(100),
        draw_group_item_lists: vec![DrawGroupItemList {
            rotation: (Rotation::SouthEast, 1),
            zoom_level: ZoomLevel::Zero,
            draw_group_items: vec![DrawGroupItem {
                sprite_chunk_id: IffChunkId::new(200),
                sprite_index: SpriteIndex::new(0),
                sprite_offset_x: 0,
                sprite_offset_y: 0,
                object_offset_x: 0,
                object_offset_y: 0,
                object_offset_z: 0,
                flags: 0,
            }],
        }],
    });
    description.sprites.sprites.push(modern_sprite(200));
    description.sprites.sprites.push(modern_sprite(201));
    description.sprites.sprites.push(wall_sprite());
    description
}

fn tags(archive: &Iff) -> Vec<String> {
    archive
        .chunks
        .iter()
        .map(|c| format!("{}:{}", String::from_utf8_lossy(&c.header.chunk_type), c.header.id.as_i16()))
        .collect()
}

#[test]
fn replaceable_types() {
    for tag in [b"DGRP", b"OBJD", b"PALT", b"SLOT", b"SPR#", b"SPR2", b"rsmp"] {
        assert!(replaceable(tag));
    }
    for tag in [b"BHAV", b"STR#", b"CTSS", b"RSMP", b"objd"] {
        assert!(!replaceable(tag));
    }
}

#[test]
fn kept_chunks_stay_in_order() {
    let source = read_iff_file(&archive(GUID_IN)).unwrap();
    let kept = keep_chunks(&source.chunks);
    let ids: Vec<i16> = kept.iter().map(|c| c.header.id.as_i16()).collect();
    assert_eq!(ids, vec![4096, 301, 2000]);
    assert_eq!(kept[1].data, b"a chair".to_vec());
}

#[test]
fn rebuild_into_a_variant() {
    let input = archive(GUID_IN);
    let output = archive(GUID_OUT);
    let bytes = rebuild_iff_file(&description(), &images(), &input, &output, false).unwrap();
    let result = read_iff_file(&bytes).unwrap();
    assert_eq!(
        tags(&result),
        vec![
            "BHAV:4096", "STR#:301", "CTSS:2000", "OBJD:7", "SLOT:128", "DGRP:100", "PALT:5",
            "SPR2:200", "SPR#:300", "rsmp:0"
        ]
    );
    let mut patched = instruction(31, GUID_OUT);
    patched.extend(instruction(5, GUID_IN));
    patched.extend(instruction(42, 99));
    assert_eq!(result.chunks[0].data, patched);
    assert_eq!(&result.chunks[0].header.label[..5], b"main\0");
    assert_eq!(&result.chunks[3].data[28..32], &GUID_OUT.to_le_bytes());
    assert_eq!(&result.chunks[3].header.label[..6], b"chair\0");
    let source = read_iff_file(&input).unwrap();
    for (kept, original) in [(1usize, 4usize), (2, 9)] {
        let mut expected = Vec::new();
        source.chunks[original].write(&mut expected);
        let mut found = Vec::new();
        result.chunks[kept].write(&mut found);
        assert_eq!(found, expected);
        assert!(bytes.windows(expected.len()).any(|w| w == &expected[..]));
    }
    let before_directory: u32 = result.chunks[..9].iter().map(|c| c.header.size).sum();
    assert_eq!(result.rsmp_address, 64 + before_directory);
    let at = result.rsmp_address as usize;
    assert_eq!(&bytes[at..at + 4], b"rsmp");
    assert_eq!(bytes.len(), at + result.chunks[9].header.size as usize);
}

#[test]
fn directory_of_a_rebuild_lists_every_chunk_once() {
    let bytes =
        rebuild_iff_file(&description(), &images(), &archive(GUID_IN), &archive(GUID_OUT), false)
            .unwrap();
    let result = read_iff_file(&bytes).unwrap();
    let directory = &result.chunks[9].data;
    assert_eq!(&directory[8..12], b"pmsr");
    assert_eq!(&directory[12..16], &result.chunks[9].header.size.to_le_bytes());
    let types = u32::from_le_bytes(directory[16..20].try_into().unwrap());
    assert_eq!(types, 9);
    let mut at = 20;
    let mut listed = Vec::new();
    for _ in 0..types {
        let mut tag: [u8; 4] = directory[at..at + 4].try_into().unwrap();
        tag.reverse();
        let count = u32::from_le_bytes(directory[at + 4..at + 8].try_into().unwrap());
        at += 8;
        for _ in 0..count {
            let offset = u32::from_le_bytes(directory[at..at + 4].try_into().unwrap()) as usize;
            let id = i16::from_le_bytes(directory[at + 4..at + 6].try_into().unwrap());
            at += 8;
            let mut length = directory[at..].iter().position(|b| *b == 0).unwrap() + 1;
            length += length % 2;
            at += length;
            assert_eq!(&bytes[offset..offset + 4], &tag);
            assert_eq!(&bytes[offset + 8..offset + 10], &id.to_be_bytes());
            listed.push(offset);
        }
    }
    assert_eq!(at, directory.len());
    let mut expected = Vec::new();
    let mut offset = 64usize;
    for chunk in &result.chunks[..9] {
        expected.push(offset);
        offset += chunk.header.size as usize;
    }
    listed.sort();
    assert_eq!(listed, expected);
}

#[test]
fn rebuild_in_place_keeps_guids_and_code() {
    let input = archive(GUID_IN);
    let bytes = rebuild_iff_file(&description(), &images(), &input, &input, true).unwrap();
    let result = read_iff_file(&bytes).unwrap();
    assert_eq!(result.chunks[0].data, code());
    assert_eq!(&result.chunks[3].data[28..32], &GUID_IN.to_le_bytes());
    let again = rebuild_iff_file(&description(), &images(), &bytes, &bytes, true).unwrap();
    assert_eq!(again, bytes);
}

#[test]
fn variant_with_the_same_guids_is_refused() {
    let input = archive(GUID_IN);
    let error = rebuild_iff_file(&description(), &images(), &input, &input, false).unwrap_err();
    assert_eq!(error, Error::GuidsIdentical);
    assert_eq!(error.kind(), ErrorKind::Consistency);
}

#[test]
fn archives_must_define_the_same_objects() {
    let other = write_iff_file(&Iff { rsmp_address: 0, chunks: vec![objd(8, GUID_OUT)] }).unwrap();
    let error =
        rebuild_iff_file(&description(), &images(), &archive(GUID_IN), &other, false).unwrap_err();
    assert_eq!(error, Error::GuidKeysDiffer);
    let none = write_iff_file(&Iff { rsmp_address: 0, chunks: vec![] }).unwrap();
    let error =
        rebuild_iff_file(&description(), &images(), &archive(GUID_IN), &none, false).unwrap_err();
    assert_eq!(error, Error::Output { defect: ArchiveError::NoGuids });
    assert_eq!(error.kind(), ErrorKind::Consistency);
    let error =
        rebuild_iff_file(&description(), &images(), &none, &archive(GUID_IN), false).unwrap_err();
    assert_eq!(error, Error::NoGuids);
    let error =
        rebuild_iff_file(&description(), &images(), &archive(GUID_IN), &archive(GUID_IN)[..70], false)
            .unwrap_err();
    assert_eq!(error, Error::Output { defect: ArchiveError::Truncated });
    assert_eq!(error.kind(), ErrorKind::Decode);
    let error =
        rebuild_iff_file(&description(), &images(), &none[..10], &archive(GUID_IN), false)
            .unwrap_err();
    assert_eq!(error, Error::Truncated);
}

#[test]
fn described_object_must_exist_in_the_archive() {
    let mut description = description();
    description.object_definitions.object_definitions[0].chunk_id = IffChunkId::new(9);
    let error =
        rebuild_iff_file(&description, &images(), &archive(GUID_IN), &archive(GUID_OUT), false)
            .unwrap_err();
    assert_eq!(error, Error::MissingGuid { chunk_id: 9 });
}

#[test]
fn unreadable_archives_are_refused() {
    let input = archive(GUID_IN);
    assert_eq!(
        rebuild_iff_file(&description(), &images(), &input[..100], &input, true).unwrap_err(),
        Error::Truncated
    );
    let mut bad = input.clone();
    bad[1] = 0;
    assert_eq!(
        rebuild_iff_file(&description(), &images(), &input, &bad, true).unwrap_err(),
        Error::Output { defect: ArchiveError::BadMagic }
    );
    assert_eq!(
        rebuild_iff_file(&description(), &images(), &bad, &input, true).unwrap_err(),
        Error::BadMagic
    );
}

#[test]
fn sprite_that_no_draw_group_shows_is_left_out() {
    let description = description();
    let groups = &description.draw_groups.draw_groups;
    assert!(uses_sprite(groups, IffChunkId::new(200)));
    assert!(!uses_sprite(groups, IffChunkId::new(201)));
    assert!(!uses_sprite(groups, IffChunkId::new(300)));
}

#[test]
fn missing_bitmap_ends_the_rebuild() {
    let mut images = images();
    images.images.remove(2);
    let error =
        rebuild_iff_file(&description(), &images, &archive(GUID_IN), &archive(GUID_OUT), false)
            .unwrap_err();
    assert_eq!(error, Error::MissingPixels { sprite_id: 200 });
}

#[test]
fn one_palette_for_each_palette_id() {
    let mut sprites = vec![modern_sprite(200), modern_sprite(201), wall_sprite()];
    sprites[1].palette_chunk_id = IffChunkId::new(6);
    sprites[2].palette_chunk_id = IffChunkId::new(5);
    let chunks = create_palt_chunks(&sprites, &images()).unwrap();
    let ids: Vec<i16> = chunks.iter().map(|c| c.header.id.as_i16()).collect();
    assert_eq!(ids, vec![5, 6]);
    assert_eq!(&chunks[0].data[16..19], &[255, 255, 0]);
    sprites[0].sprite_frames.clear();
    assert_eq!(
        create_palt_chunks(&sprites, &images()).unwrap_err(),
        Error::NoFrames { sprite_id: 200 }
    );
}

#[test]
fn modern_sprite_chunk() {
    let chunk = modern_sprite(200).to_chunk(&images()).unwrap();
    let mut expected = Vec::new();
    expected.extend_from_slice(&1000u32.to_le_bytes());
    expected.extend_from_slice(&1u32.to_le_bytes());
    expected.extend_from_slice(&5i32.to_le_bytes());
    expected.extend_from_slice(&16u32.to_le_bytes());
    expected.extend_from_slice(&[2, 0, 2, 0, 7, 0, 0, 0, 5, 0, 0, 0, 0, 0, 0, 0]);
    expected.extend_from_slice(&[8, 0, 0x01, 0x60, 0x01, 0x20, 3, 9]);
    expected.extend_from_slice(&[8, 0, 0x01, 0x40, 4, 8, 16, 0]);
    expected.extend_from_slice(&[0x00, 0xa0]);
    assert_eq!(chunk.data, expected);
    assert_eq!(&chunk.header.chunk_type, b"SPR2");
    assert_eq!(chunk.header.id, IffChunkId::new(200));
}

#[test]
fn modern_sprite_takes_the_pixels_inside_its_bounds() {
    let mut sprite = modern_sprite(200);
    sprite.sprite_frames[0].bounds_left = 1;
    sprite.sprite_frames[0].bounds_top = 0;
    sprite.sprite_frames[0].bounds_right = 2;
    sprite.sprite_frames[0].bounds_bottom = 1;
    let chunk = sprite.to_spr2_chunk(&images()).unwrap();
    assert_eq!(
        &chunk.data[16..],
        &[1, 0, 1, 0, 7, 0, 0, 0, 5, 0, 0, 0, 0, 0, 1, 0, 6, 0, 0x01, 0x20, 3, 9, 0x00, 0xa0]
    );
    sprite.sprite_frames[0].bounds_right = 3;
    assert_eq!(
        sprite.to_chunk(&images()).unwrap_err(),
        Error::Frame { sprite_id: 200, frame: 0, cause: PixelError::Bounds }
    );
    sprite.sprite_frames[0].bounds_right = 0;
    assert_eq!(
        sprite.to_chunk(&images()).unwrap_err(),
        Error::Frame { sprite_id: 200, frame: 0, cause: PixelError::Bounds }
    );
}

#[test]
fn wall_style_sprite_is_made_of_two_values() {
    let chunk = wall_sprite().to_chunk(&images()).unwrap();
    let mut expected = Vec::new();
    expected.extend_from_slice(&504u32.to_le_bytes());
    expected.extend_from_slice(&1u32.to_le_bytes());
    expected.extend_from_slice(&5i32.to_le_bytes());
    expected.extend_from_slice(&16u32.to_le_bytes());
    expected.extend_from_slice(&[0, 0, 0, 0, 2, 0, 2, 0, 0, 0]);
    expected.extend_from_slice(&[4, 8, 1, 1, 3, 1, 0, 0]);
    expected.extend_from_slice(&[4, 6, 3, 1, 0, 0]);
    expected.extend_from_slice(&[5, 0]);
    assert_eq!(chunk.data, expected);
    assert_eq!(&chunk.header.chunk_type, b"SPR#");
}

#[test]
fn legacy_sprite_must_declare_its_frames() {
    let mut sprite = wall_sprite();
    sprite.sprite_frame_count = 2;
    assert_eq!(
        sprite.to_spr1_chunk(&images()).unwrap_err(),
        Error::FrameCountMismatch { sprite_id: 300 }
    );
}

#[test]
fn sprite_needs_its_channels_and_indexed_bitmaps() {
    let mut sprite = modern_sprite(200);
    sprite.sprite_frames[0].sprite_channels.remove(1);
    assert_eq!(
        sprite.to_chunk(&images()).unwrap_err(),
        Error::MissingChannel { sprite_id: 200, frame: 0, channel: SpriteChannelType::Depth }
    );
    let mut images = images();
    images.images[0].bitmap.palette.clear();
    assert_eq!(
        modern_sprite(200).to_chunk(&images).unwrap_err(),
        Error::NotIndexed { sprite_id: 200 }
    );
}
