use sims_iff::dgrp::{
    deserialize_draw_group_rotation, deserialize_draw_group_zoom_level,
    serialize_draw_group_rotation, serialize_draw_group_zoom_level, DrawGroup, DrawGroupItem,
    DrawGroupItemList,
};
use sims_iff::error::Error;
use sims_iff::guid::map_guids;
use sims_iff::iff::IffChunkId;
use sims_iff::objd::{ObjectDefinition, OBJD_CHUNK_DATA_SIZE};
use sims_iff::palt::{create_palt_chunk, transparent_color_index};
use sims_iff::slot::{Slot, SlotDescriptor, SlotType};
use sims_iff::spr::SpriteIndex;
use sims_iff::sprite::{Rotation, ZoomLevel};

fn definition() -> ObjectDefinition {
    let mut definition = ObjectDefinition::default();
    definition.chunk_label = "chair".to_owned();
    definition.chunk_id = IffChunkId::new(7);
    definition.guid = 0x01010101;
    definition
}

#[test]
fn object_definition_carries_the_resolved_guid() {
    let chunk = definition().to_chunk(Some(0xA1B2C3D4u32 as i32)).unwrap();
    assert_eq!(chunk.data.len(), OBJD_CHUNK_DATA_SIZE);
    assert_eq!(&chunk.data[28..32], &[0xD4, 0xC3, 0xB2, 0xA1]);
    assert_eq!(&chunk.header.chunk_type, b"OBJD");
    assert_eq!(chunk.header.id, IffChunkId::new(7));
    assert_eq!(chunk.header.size, 76 + 216);
    assert_eq!(&chunk.header.label[..6], b"chair\0");
    let guids = map_guids(&[chunk]).unwrap();
    assert_eq!(guids.get(IffChunkId::new(7)), Some(0xA1B2C3D4u32 as i32));
}

#[test]
fn object_definition_falls_back_to_its_own_guid() {
    let chunk = definition().to_chunk(None).unwrap();
    assert_eq!(&chunk.data[28..32], &[1, 1, 1, 1]);
}

#[test]
fn object_definition_fields_stand_in_record_order() {
    let mut definition = definition();
    definition.initialstacksize = 0x0102;
    definition.animtableid = -2;
    definition.disabled = 0x0304;
    definition.slot_chunk_id = IffChunkId::new(0x0506);
    definition.buildmodetype = 0x0708;
    definition.originalguid = 0x11121314;
    definition.originalsuitguid = 0x21222324;
    definition.typeattrguid = 0x31323334;
    definition.unused13 = 0x090a;
    let data = definition.to_chunk(Some(0)).unwrap().data;
    assert_eq!(&data[0..4], &138i32.to_le_bytes());
    assert_eq!(&data[4..6], &[2, 1]);
    assert_eq!(&data[26..28], &[0xfe, 0xff]);
    assert_eq!(&data[32..34], &[4, 3]);
    assert_eq!(&data[40..42], &[6, 5]);
    assert_eq!(&data[138..140], &[8, 7]);
    assert_eq!(&data[140..144], &[0x14, 0x13, 0x12, 0x11]);
    assert_eq!(&data[144..148], &[0x24, 0x23, 0x22, 0x21]);
    assert_eq!(&data[184..188], &[0x34, 0x33, 0x32, 0x31]);
    assert_eq!(&data[214..216], &[0x0a, 0x09]);
}

#[test]
fn object_definition_label_must_fit() {
    let mut definition = definition();
    definition.chunk_label = "x".repeat(63);
    let chunk = definition.to_chunk(None).unwrap();
    assert_eq!(&chunk.header.label[..63], "x".repeat(63).as_bytes());
    assert_eq!(chunk.header.label[63], 0);
    assert_eq!(chunk.data.len(), 216);
    definition.chunk_label = "x".repeat(64);
    assert_eq!(
        definition.to_chunk(None).unwrap_err(),
        Error::LabelTooLong { chunk_id: definition.chunk_id.as_i16() }
    );
}

#[test]
fn slot_fields_default_independently() {
    let slot = Slot {
        chunk_label: "slots".to_owned(),
        chunk_id: IffChunkId::new(128),
        slot_descriptors: vec![
            SlotDescriptor {
                slot_type: SlotType::Three,
                xoffset: 1.5f32.to_bits(),
                yoffset: (-2.0f32).to_bits(),
                altoffset: 0.25f32.to_bits(),
                ..SlotDescriptor::default()
            },
            SlotDescriptor {
                slot_type: SlotType::One,
                standing: Some(1),
                sitting: Some(2),
                ground: Some(3),
                rsflags: Some(4),
                snaptargetslot: Some(5),
                minproximity: Some(6),
                maxproximity: Some(7),
                optimalproximity: Some(8),
                maxsize: Some(9),
                flags: Some(10),
                gradient: Some(0.5f32.to_bits()),
                height: Some(11),
                facing: Some(12),
                resolution: Some(13),
                ..SlotDescriptor::default()
            },
        ],
    };
    let chunk = slot.to_chunk().unwrap();
    assert_eq!(chunk.data.len(), 16 + 2 * 70);
    assert_eq!(&chunk.data[0..4], &[0, 0, 0, 0]);
    assert_eq!(&chunk.data[4..8], &10u32.to_le_bytes());
    assert_eq!(&chunk.data[8..12], b"TOLS");
    assert_eq!(&chunk.data[12..16], &2u32.to_le_bytes());
    let mut first = Vec::new();
    first.extend_from_slice(&3i16.to_le_bytes());
    first.extend_from_slice(&1.5f32.to_le_bytes());
    first.extend_from_slice(&(-2.0f32).to_le_bytes());
    first.extend_from_slice(&0.25f32.to_le_bytes());
    for value in [0i32, 0, 0, 0, -1, 16, 16, 16, 0, 0] {
        first.extend_from_slice(&value.to_le_bytes());
    }
    first.extend_from_slice(&0.1875f32.to_le_bytes());
    for value in [0i32, -2, 16] {
        first.extend_from_slice(&value.to_le_bytes());
    }
    assert_eq!(&chunk.data[16..86], &first[..]);
    let mut second = Vec::new();
    second.extend_from_slice(&1i16.to_le_bytes());
    second.extend_from_slice(&[0; 12]);
    for value in 1i32..=10 {
        second.extend_from_slice(&value.to_le_bytes());
    }
    second.extend_from_slice(&0.5f32.to_le_bytes());
    for value in 11i32..=13 {
        second.extend_from_slice(&value.to_le_bytes());
    }
    assert_eq!(&chunk.data[86..156], &second[..]);
    assert_eq!(&chunk.header.chunk_type, b"SLOT");
}

#[test]
fn slot_is_written_with_its_header() {
    let slot =
        Slot { chunk_label: "s".to_owned(), chunk_id: IffChunkId::new(1), slot_descriptors: vec![] };
    let mut out = vec![0xee];
    slot.write(&mut out).unwrap();
    assert_eq!(out.len(), 1 + 76 + 16);
    assert_eq!(&out[1..5], b"SLOT");
    assert_eq!(&out[5..9], &92u32.to_be_bytes());
    assert_eq!(&out[77 + 8..77 + 12], b"TOLS");
    let unnamed = Slot {
        chunk_label: "a\0".to_owned(),
        chunk_id: IffChunkId::new(1),
        slot_descriptors: vec![],
    };
    let mut untouched = vec![1, 2];
    assert_eq!(unnamed.write(&mut untouched), Err(Error::LabelContainsNul { chunk_id: 1 }));
    assert_eq!(untouched, vec![1, 2]);
}

#[test]
fn draw_group_items_are_written_in_wire_order() {
    let group = DrawGroup {
        chunk_label: "image".to_owned(),
        chunk_id: IffChunkId::new(100),
        draw_group_item_lists: vec![
            DrawGroupItemList {
                rotation: (Rotation::SouthEast, 2),
                zoom_level: ZoomLevel::Two,
                draw_group_items: vec![DrawGroupItem {
                    sprite_chunk_id: IffChunkId::new(-5),
                    sprite_index: SpriteIndex::new(3),
                    sprite_offset_x: -10,
                    sprite_offset_y: 20,
                    object_offset_x: 1.0f32.to_bits(),
                    object_offset_y: 2.0f32.to_bits(),
                    object_offset_z: 3.0f32.to_bits(),
                    flags: 7,
                }],
            },
            DrawGroupItemList {
                rotation: (Rotation::NorthEast, 4),
                zoom_level: ZoomLevel::Zero,
                draw_group_items: vec![],
            },
        ],
    };
    let chunk = group.to_chunk().unwrap();
    let mut expected = Vec::new();
    expected.extend_from_slice(&20004u16.to_le_bytes());
    expected.extend_from_slice(&2u32.to_le_bytes());
    expected.extend_from_slice(&2u32.to_le_bytes());
    expected.extend_from_slice(&3u32.to_le_bytes());
    expected.extend_from_slice(&1u32.to_le_bytes());
    expected.extend_from_slice(&(-5i32).to_le_bytes());
    expected.extend_from_slice(&3i32.to_le_bytes());
    expected.extend_from_slice(&(-10i32).to_le_bytes());
    expected.extend_from_slice(&20i32.to_le_bytes());
    expected.extend_from_slice(&3.0f32.to_le_bytes());
    expected.extend_from_slice(&7u32.to_le_bytes());
    expected.extend_from_slice(&1.0f32.to_le_bytes());
    expected.extend_from_slice(&2.0f32.to_le_bytes());
    expected.extend_from_slice(&4u32.to_le_bytes());
    expected.extend_from_slice(&1u32.to_le_bytes());
    expected.extend_from_slice(&0u32.to_le_bytes());
    assert_eq!(chunk.data, expected);
    assert_eq!(chunk.data.len(), 6 + 12 + 32 + 12);
    assert_eq!(&chunk.header.chunk_type, b"DGRP");
}

#[test]
fn direction_flags_stand_for_directions() {
    assert_eq!(deserialize_draw_group_rotation(1), Some((Rotation::SouthEast, 1)));
    assert_eq!(deserialize_draw_group_rotation(2), Some((Rotation::SouthEast, 2)));
    assert_eq!(deserialize_draw_group_rotation(4), Some((Rotation::NorthEast, 4)));
    assert_eq!(deserialize_draw_group_rotation(8), Some((Rotation::NorthEast, 8)));
    assert_eq!(deserialize_draw_group_rotation(16), Some((Rotation::NorthWest, 16)));
    assert_eq!(deserialize_draw_group_rotation(32), Some((Rotation::NorthWest, 32)));
    assert_eq!(deserialize_draw_group_rotation(64), Some((Rotation::SouthWest, 64)));
    assert_eq!(deserialize_draw_group_rotation(128), Some((Rotation::SouthWest, 128)));
    assert_eq!(deserialize_draw_group_rotation(0), None);
    assert_eq!(deserialize_draw_group_rotation(3), None);
    assert_eq!(serialize_draw_group_rotation(&(Rotation::NorthWest, 32)), 32);
}

#[test]
fn scales_are_numbered_from_one() {
    assert_eq!(deserialize_draw_group_zoom_level(1), Some(ZoomLevel::Zero));
    assert_eq!(deserialize_draw_group_zoom_level(2), Some(ZoomLevel::One));
    assert_eq!(deserialize_draw_group_zoom_level(3), Some(ZoomLevel::Two));
    assert_eq!(deserialize_draw_group_zoom_level(0), None);
    assert_eq!(deserialize_draw_group_zoom_level(4), None);
    assert_eq!(serialize_draw_group_zoom_level(&ZoomLevel::Two), 3);
}

#[test]
fn palette_is_written_as_rgb_triples() {
    let mut palette: Vec<[u8; 3]> = (0..=255u8).map(|i| [i, 255 - i, 7]).collect();
    palette[9] = [255, 255, 0];
    let chunk = create_palt_chunk(IffChunkId::new(3), &palette).unwrap();
    assert_eq!(chunk.data.len(), 784);
    assert_eq!(&chunk.data[0..4], &1u32.to_le_bytes());
    assert_eq!(&chunk.data[4..8], &256u32.to_le_bytes());
    assert_eq!(&chunk.data[8..16], &[0; 8]);
    assert_eq!(&chunk.data[16..19], &[0, 255, 7]);
    assert_eq!(&chunk.data[16 + 27..16 + 30], &[255, 255, 0]);
    assert_eq!(&chunk.data[781..784], &[255, 0, 7]);
    assert_eq!(&chunk.header.chunk_type, b"PALT");
    assert_eq!(chunk.header.id, IffChunkId::new(3));
    assert_eq!(chunk.header.label, [0; 64]);
    assert_eq!(transparent_color_index(&palette), Some(9));
}

#[test]
fn palette_needs_256_colours() {
    assert_eq!(
        create_palt_chunk(IffChunkId::new(3), &vec![[0, 0, 0]; 255]).unwrap_err(),
        Error::PaletteSize { chunk_id: 3 }
    );
    assert_eq!(
        create_palt_chunk(IffChunkId::new(3), &vec![[0, 0, 0]; 257]).unwrap_err(),
        Error::PaletteSize { chunk_id: 3 }
    );
    assert_eq!(create_palt_chunk(IffChunkId::new(3), &vec![]).unwrap_err(), Error::PaletteSize { chunk_id: 3 });
}

#[test]
fn transparent_colour_is_the_first_yellow() {
    assert_eq!(transparent_color_index(&vec![[255, 255, 1], [255, 254, 0]]), None);
    assert_eq!(
        transparent_color_index(&vec![[0, 0, 0], [255, 255, 0], [255, 255, 0]]),
        Some(1)
    );
    assert_eq!(transparent_color_index(&vec![]), None);
}
