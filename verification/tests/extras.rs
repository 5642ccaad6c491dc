use sims_iff::bitmap::{Bitmap, ChannelImage, ImageStore};
use sims_iff::compiler::{get_iff_file_name_hash, iff_file_name_with_hash};
use sims_iff::dgrp::{DrawGroup, DrawGroupItem, DrawGroupItemList};
use sims_iff::draw_group_rotation_adder::{add_rotations, RotationWarning};
use sims_iff::error::{iff_decode_error, Error, PixelError};
use sims_iff::iff::IffChunkId;
use sims_iff::iff_description::{DrawGroups, IffDescription, Sprites};
use sims_iff::positions::{DescriptionStore, FrameDescription};
use sims_iff::quantizer::posterize;
use sims_iff::splitter::{
    check_object_description, is_tile_empty, measures, rotated_dimensions, rotated_tile,
    sub_sprite_origin, tile_sprite_id, FrameToSplit, ObjectDescription, ObjectDimensions,
};
use sims_iff::spr::{sprite_channel_error, Sprite, SpriteChannelType, SpriteFrame, SpriteIndex};
use sims_iff::spr1::encode_spr1_frame;
use sims_iff::spr1_decode::decode_spr1_frame;
use sims_iff::sprite::{Rotation, SpriteBounds, SpriteImageDescription, SpriteOffsets, ZoomLevel};
use sims_iff::text::{decimal, upper_hex};
use sims_iff::xml_updater::{build_sprite_description, merge_sprites};

fn image_description(left: i16, palette: i16) -> SpriteImageDescription {
    SpriteImageDescription {
        width: 136,
        height: 384,
        bounds: SpriteBounds { left, top: 2, right: 30, bottom: 40 },
        offsets: SpriteOffsets { x: -5, y: 6, x_flipped: 7 },
        palette_id: IffChunkId::new(palette),
        transparent_color_index: 9,
    }
}

fn frame(index: i32, alpha_path: &str) -> SpriteFrame {
    let description = SpriteImageDescription {
        width: 0,
        height: 0,
        bounds: SpriteBounds { left: 0, top: 0, right: 0, bottom: 0 },
        offsets: SpriteOffsets { x: 0, y: 0, x_flipped: 0 },
        palette_id: IffChunkId::new(1),
        transparent_color_index: 0,
    };
    SpriteFrame::new(
        index,
        ZoomLevel::Zero,
        Rotation::NorthWest,
        &description,
        "p.bmp",
        "z.bmp",
        alpha_path,
    )
}

fn sprite(id: i16, frames: Vec<SpriteFrame>) -> Sprite {
    Sprite::new("sprite", IffChunkId::new(id), IffChunkId::new(1), frames)
}

fn item(sprite_id: i16, index: i32, flags: u32) -> DrawGroupItem {
    DrawGroupItem {
        sprite_chunk_id: IffChunkId::new(sprite_id),
        sprite_index: SpriteIndex::new(index),
        sprite_offset_x: 100,
        sprite_offset_y: 200,
        object_offset_x: 0,
        object_offset_y: 0,
        object_offset_z: 0,
        flags,
    }
}

fn group(id: i16, lists: Vec<Vec<DrawGroupItem>>) -> DrawGroup {
    DrawGroup {
        chunk_label: "group".to_owned(),
        chunk_id: IffChunkId::new(id),
        draw_group_item_lists: lists
            .into_iter()
            .map(|items| DrawGroupItemList {
                rotation: (Rotation::SouthEast, 1),
                zoom_level: ZoomLevel::Zero,
                draw_group_items: items,
            })
            .collect(),
    }
}

#[test]
fn samples_keep_their_top_bits() {
    assert_eq!(posterize(0, 3), 0);
    assert_eq!(posterize(255, 3), 255);
    assert_eq!(posterize(0b1011_0111, 3), 181);
    assert_eq!(posterize(0b1011_0111, 2), 182);
    assert_eq!(posterize(8, 3), 8);
    for color in 0..=255u8 {
        assert_eq!(posterize(posterize(color, 3), 3), posterize(color, 3));
        assert_eq!(posterize(posterize(color, 2), 2), posterize(color, 2));
    }
}

#[test]
fn numbers_as_text() {
    assert_eq!(decimal(0), "0");
    assert_eq!(decimal(7), "7");
    assert_eq!(decimal(1230), "1230");
    assert_eq!(decimal(-45), "-45");
    assert_eq!(decimal(i32::MAX), "2147483647");
    assert_eq!(decimal(i32::MIN), "-2147483648");
    assert_eq!(upper_hex(0), "0");
    assert_eq!(upper_hex(0xabc), "ABC");
    assert_eq!(upper_hex(0x10), "10");
    assert_eq!(upper_hex(u32::MAX), "FFFFFFFF");
}

#[test]
fn messages_name_what_failed() {
    assert_eq!(iff_decode_error("objects/chair.iff"), "Failed to decode iff file objects/chair.iff");
    assert_eq!(
        sprite_channel_error(SpriteChannelType::Alpha, IffChunkId::new(-12), SpriteIndex::new(3)),
        "Failed to find alpha channel in sprite id: -12 frame: 3"
    );
    assert_eq!(
        sprite_channel_error(SpriteChannelType::Color, IffChunkId::new(0), SpriteIndex::new(10)),
        "Failed to find color channel in sprite id: 0 frame: 10"
    );
}

#[test]
fn archive_names_are_abbreviated_word_by_word() {
    assert_eq!(iff_file_name_with_hash("dining chair", "red", 0x1a2b), "dichre1A2B");
    assert_eq!(iff_file_name_with_hash("a big", "", 0), "bi0");
    assert_eq!(iff_file_name_with_hash("", "", 0xff), "FF");
    assert_eq!(iff_file_name_with_hash("x  yz", "q", 1), "yz1");
    assert_eq!(iff_file_name_with_hash("é a", "ab", 2), "éab2");
    let name = get_iff_file_name_hash("dining chair", "red");
    assert!(name.starts_with("dichre"));
    let hash = &name["dichre".len()..];
    assert!(!hash.is_empty() && hash.len() <= 8);
    assert!(hash.chars().all(|c| c.is_ascii_digit() || ('A'..='F').contains(&c)));
    assert_eq!(name, get_iff_file_name_hash("dining chair", "red"));
}

#[test]
fn flipped_sprite_gets_four_directions() {
    let mut lists = Vec::new();
    for l in 0..12 {
        lists.push(vec![
            if l % 2 == 0 { item(50, 9, 0) } else { item(51, 9, 1 | 4) },
            item(60, 7, 0),
        ]);
    }
    let mut groups = DrawGroups { draw_groups: vec![group(1, lists)] };
    let warnings = add_rotations(&mut groups);
    assert!(warnings.is_empty());
    for (l, list) in groups.draw_groups[0].draw_group_item_lists.iter().enumerate() {
        let l = l as i32;
        let expected = (2 - l / 4) * 4 + l % 4;
        assert_eq!(list.draw_group_items[0].sprite_chunk_id, IffChunkId::new(50));
        assert_eq!(list.draw_group_items[0].sprite_index, SpriteIndex::new(expected));
        assert_eq!(list.draw_group_items[0].flags, if l % 2 == 0 { 0 } else { 4 });
        assert_eq!(list.draw_group_items[1].sprite_chunk_id, IffChunkId::new(60));
        assert_eq!(list.draw_group_items[1].sprite_index, SpriteIndex::new(expected));
        assert_eq!(list.draw_group_items[0].sprite_offset_x, 100);
    }
    assert_eq!(
        groups.draw_groups[0].draw_group_item_lists[0].draw_group_items[0].sprite_index,
        SpriteIndex::new(8)
    );
    assert_eq!(
        groups.draw_groups[0].draw_group_item_lists[11].draw_group_items[0].sprite_index,
        SpriteIndex::new(3)
    );
}

#[test]
fn groups_that_cannot_be_converted_are_reported() {
    let uneven = vec![
        vec![item(50, 0, 1)],
        vec![item(50, 1, 1)],
        vec![item(50, 2, 1)],
        vec![item(51, 3, 0)],
    ];
    let ragged = vec![vec![item(50, 0, 0)], vec![item(50, 1, 1), item(50, 2, 0)]];
    let plain = vec![vec![item(50, 0, 0)], vec![]];
    let mut groups = DrawGroups {
        draw_groups: vec![group(1, uneven), group(2, ragged), group(3, plain), group(4, vec![])],
    };
    let warnings = add_rotations(&mut groups);
    assert_eq!(
        warnings,
        vec![
            RotationWarning::UnequalUsage { chunk_id: 1 },
            RotationWarning::UnequalLength { chunk_id: 2 }
        ]
    );
    let first = &groups.draw_groups[0].draw_group_item_lists;
    assert_eq!(first[0].draw_group_items[0].flags, 1);
    assert_eq!(first[3].draw_group_items[0].sprite_index, SpriteIndex::new(3));
    assert_eq!(groups.draw_groups[1].draw_group_item_lists[1].draw_group_items[0].flags, 1);
}

#[test]
fn new_sprites_replace_and_are_sorted_in() {
    let mut sprites = Sprites {
        sprites: vec![sprite(30, vec![]), sprite(10, vec![frame(0, "old")]), sprite(20, vec![])],
    };
    let added = vec![sprite(25, vec![]), sprite(10, vec![frame(0, "new")]), sprite(5, vec![])];
    merge_sprites(&mut sprites, added).unwrap();
    let ids: Vec<i16> = sprites.sprites.iter().map(|s| s.chunk_id.as_i16()).collect();
    assert_eq!(ids, vec![5, 10, 20, 25, 30]);
    assert_eq!(sprites.sprites[1].sprite_frames[0].sprite_channels[2].file_path_relative, "new");
    let before = sprites.sprites.len();
    let error = merge_sprites(&mut sprites, vec![sprite(7, vec![]), sprite(7, vec![])]);
    assert_eq!(error, Err(Error::DuplicateSpriteId { chunk_id: 7 }));
    assert_eq!(sprites.sprites.len(), before);
}

#[test]
fn tile_sprite_is_described_from_what_was_found() {
    let mut found = vec![None; 12];
    found[1] = Some(image_description(11, 4));
    found[6] = Some(image_description(22, 5));
    found[11] = Some(image_description(33, 6));
    let sprite =
        build_sprite_description("chair - sprites/a 0_0", "/", "a 0_0", IffChunkId::new(77), &found)
            .unwrap();
    assert_eq!(sprite.chunk_label, "a 0_0");
    assert_eq!(sprite.chunk_id, IffChunkId::new(77));
    assert_eq!(sprite.palette_chunk_id, IffChunkId::new(4));
    assert_eq!(sprite.sprite_frame_count, 3);
    let frames = &sprite.sprite_frames;
    assert_eq!(frames[0].index, SpriteIndex::new(0));
    assert_eq!(frames[0].zoom_level, ZoomLevel::Zero);
    assert_eq!(frames[0].rotation, Rotation::NorthEast);
    assert_eq!(frames[0].bounds_left, 11);
    assert_eq!(frames[0].sprite_channels[0].file_path_relative, "chair - sprites/a 0_0/large_ne_p.bmp");
    assert_eq!(frames[1].index, SpriteIndex::new(1));
    assert_eq!(frames[1].zoom_level, ZoomLevel::One);
    assert_eq!(frames[1].rotation, Rotation::SouthEast);
    assert_eq!(frames[1].sprite_channels[1].file_path_relative, "chair - sprites/a 0_0/medium_se_z.bmp");
    assert_eq!(frames[2].zoom_level, ZoomLevel::Two);
    assert_eq!(frames[2].rotation, Rotation::SouthWest);
    assert_eq!(frames[2].bounds_left, 33);
    assert_eq!(frames[2].sprite_channels[2].file_path_relative, "chair - sprites/a 0_0/small_sw_a.bmp");
    assert_eq!(
        build_sprite_description("d", "/", "l", IffChunkId::new(1), &vec![None; 12]).unwrap_err(),
        Error::NoDescribedFrames { sprite_id: 1 }
    );
}

#[test]
fn positions_come_from_descriptions_or_bitmaps() {
    let mut description = IffDescription::default();
    description.sprites.sprites.push(sprite(50, vec![frame(0, "a0"), frame(1, "a1"), frame(2, "a2")]));
    let mut legacy = sprite(51, vec![frame(0, "a0")]);
    legacy.sprite_type = sims_iff::spr::SpriteType::Spr1;
    description.sprites.sprites.push(legacy);
    description.draw_groups.draw_groups.push(group(
        1,
        vec![vec![item(50, 1, 0), item(50, 1, 1), item(50, 0, 0), item(51, 1, 0), item(50, 2, 0)]],
    ));
    let descriptions = DescriptionStore {
        descriptions: vec![FrameDescription {
            path: "a1".to_owned(),
            description: image_description(11, 4),
        }],
    };
    let mut pixels = vec![0u8; 12];
    pixels[5] = 1;
    pixels[6] = 1;
    let alphas = ImageStore {
        images: vec![
            ChannelImage {
                path: "a0".to_owned(),
                bitmap: Bitmap { width: 4, height: 3, pixels, palette: vec![] },
            },
            ChannelImage {
                path: "a2".to_owned(),
                bitmap: Bitmap { width: 2, height: 2, pixels: vec![0; 4], palette: vec![] },
            },
        ],
    };
    description.update_sprite_positions(&descriptions, &alphas).unwrap();
    let sprite = &description.sprites.sprites[0];
    assert_eq!(sprite.palette_chunk_id, IffChunkId::new(4));
    let frames = &sprite.sprite_frames;
    assert_eq!(frames[0].palette_chunk_id, IffChunkId::new(1));
    assert_eq!(
        (frames[0].bounds_left, frames[0].bounds_top, frames[0].bounds_right, frames[0].bounds_bottom),
        (1, 1, 3, 2)
    );
    assert_eq!(frames[0].transparent_color_index, 0);
    assert_eq!(frames[1].palette_chunk_id, IffChunkId::new(4));
    assert_eq!(frames[1].transparent_color_index, 9);
    assert_eq!(
        (frames[1].bounds_left, frames[1].bounds_top, frames[1].bounds_right, frames[1].bounds_bottom),
        (11, 2, 30, 40)
    );
    assert_eq!(frames[2].palette_chunk_id, IffChunkId::new(4));
    assert_eq!(
        (frames[2].bounds_left, frames[2].bounds_top, frames[2].bounds_right, frames[2].bounds_bottom),
        (0, 0, 0, 0)
    );
    assert_eq!(description.sprites.sprites[1].sprite_frames[0].bounds_right, 0);
    let items = &description.draw_groups.draw_groups[0].draw_group_item_lists[0].draw_group_items;
    assert_eq!((items[0].sprite_offset_x, items[0].sprite_offset_y), (-5, 6));
    assert_eq!((items[1].sprite_offset_x, items[1].sprite_offset_y), (7, 6));
    assert_eq!((items[2].sprite_offset_x, items[2].sprite_offset_y), (100, 200));
    assert_eq!((items[3].sprite_offset_x, items[3].sprite_offset_y), (100, 200));
    assert_eq!((items[4].sprite_offset_x, items[4].sprite_offset_y), (100, 200));
}

#[test]
fn stopped_position_update_keeps_what_came_before() {
    let mut description = IffDescription::default();
    description.sprites.sprites.push(sprite(50, vec![frame(0, "a0"), frame(1, "a1"), frame(2, "a2")]));
    description.sprites.sprites.push(sprite(52, vec![frame(0, "a0")]));
    description.draw_groups.draw_groups.push(group(1, vec![vec![item(50, 0, 0), item(50, 1, 0)]]));
    let descriptions = DescriptionStore {
        descriptions: vec![FrameDescription {
            path: "a0".to_owned(),
            description: image_description(11, 4),
        }],
    };
    let rights: Vec<i16> =
        description.sprites.sprites[0].sprite_frames.iter().map(|f| f.bounds_right).collect();
    let palette = description.sprites.sprites[0].sprite_frames[2].palette_chunk_id;
    let other_palette = description.sprites.sprites[1].palette_chunk_id;
    let other_right = description.sprites.sprites[1].sprite_frames[0].bounds_right;
    let error = description.update_sprite_positions(&descriptions, &ImageStore { images: vec![] });
    assert_eq!(error, Err(Error::MissingPixels { sprite_id: 50 }));
    let sprite = &description.sprites.sprites[0];
    assert_eq!(sprite.palette_chunk_id, IffChunkId::new(4));
    let frames = &sprite.sprite_frames;
    assert_eq!(frames[0].palette_chunk_id, IffChunkId::new(4));
    assert_eq!(
        (frames[0].bounds_left, frames[0].bounds_top, frames[0].bounds_right, frames[0].bounds_bottom),
        (11, 2, 30, 40)
    );
    assert_eq!(frames[1].palette_chunk_id, IffChunkId::new(4));
    assert_eq!(frames[1].bounds_right, rights[1]);
    assert_eq!(frames[2].palette_chunk_id, palette);
    assert_eq!(frames[2].bounds_right, rights[2]);
    let untouched = &description.sprites.sprites[1];
    assert_eq!(untouched.palette_chunk_id, other_palette);
    assert_eq!(untouched.sprite_frames[0].bounds_right, other_right);
    let items = &description.draw_groups.draw_groups[0].draw_group_item_lists[0].draw_group_items;
    assert_eq!((items[0].sprite_offset_x, items[0].sprite_offset_y), (-5, 6));
    assert_eq!((items[1].sprite_offset_x, items[1].sprite_offset_y), (100, 200));
}

#[test]
fn positions_need_a_description_or_a_bitmap() {
    let mut description = IffDescription::default();
    description.sprites.sprites.push(sprite(50, vec![frame(0, "a0")]));
    let none = DescriptionStore { descriptions: vec![] };
    let error = description.update_sprite_positions(&none, &ImageStore { images: vec![] });
    assert_eq!(error, Err(Error::MissingPixels { sprite_id: 50 }));
    description.sprites.sprites[0].sprite_frames[0].sprite_channels.pop();
    let error = description.update_sprite_positions(&none, &ImageStore { images: vec![] });
    assert_eq!(
        error,
        Err(Error::MissingChannel { sprite_id: 50, frame: 0, channel: SpriteChannelType::Alpha })
    );
}

#[test]
fn legacy_frame_round_trip() {
    let t = 255u8;
    let mut pixels = vec![t; 40];
    pixels.extend_from_slice(&[1, 2, 2, 2, 5, 6, t, 9, t, t]);
    pixels.extend_from_slice(&[7; 10]);
    pixels.extend_from_slice(&[t, 3, 3, 3, 3, 3, 3, 3, 3, 4]);
    pixels.extend_from_slice(&[t; 20]);
    let bytes = encode_spr1_frame(&pixels, 10, 9, t).unwrap();
    let frame = decode_spr1_frame(&bytes, t).unwrap();
    assert_eq!(frame.width, 10);
    assert_eq!(frame.height, 9);
    assert_eq!(frame.pixels, pixels);
    let mut trailing = bytes.clone();
    trailing.push(0);
    assert_eq!(decode_spr1_frame(&trailing, t).unwrap_err(), PixelError::MalformedCommands);
    assert_eq!(decode_spr1_frame(&bytes[..bytes.len() - 2], t).unwrap_err(), PixelError::MalformedCommands);
    let mut reserved = bytes.clone();
    reserved[0] = 1;
    assert_eq!(decode_spr1_frame(&reserved, t).unwrap_err(), PixelError::MalformedCommands);
    let mut no_length = bytes.clone();
    no_length[11] = 0;
    assert_eq!(decode_spr1_frame(&no_length, t).unwrap_err(), PixelError::MalformedCommands);
}

#[test]
fn tiles_are_cut_from_the_picture_of_the_object() {
    let wide = ObjectDimensions { x: 2, y: 1 };
    assert_eq!(sub_sprite_origin(wide, 0, 0, Rotation::NorthWest, ZoomLevel::Zero), Ok((0, 16)));
    assert_eq!(sub_sprite_origin(wide, 1, 0, Rotation::NorthWest, ZoomLevel::Zero), Ok((64, 48)));
    let deep = ObjectDimensions { x: 2, y: 3 };
    assert_eq!(sub_sprite_origin(deep, 1, 2, Rotation::SouthEast, ZoomLevel::One), Ok((0, 56)));
    assert_eq!(sub_sprite_origin(deep, 0, 0, Rotation::NorthEast, ZoomLevel::Two), Ok((32, 36)));
    let single = ObjectDimensions { x: 1, y: 1 };
    assert_eq!(sub_sprite_origin(single, 0, 0, Rotation::SouthWest, ZoomLevel::Zero), Ok((0, 0)));
    let large = ObjectDimensions { x: 3, y: 2 };
    assert_eq!(sub_sprite_origin(large, 2, 1, Rotation::SouthWest, ZoomLevel::Zero), Ok((64, 144)));
    let m = measures(ZoomLevel::Two);
    assert_eq!((m.tile_width, m.tile_height, m.sprite_width, m.sprite_height), (32, 16, 34, 96));
    assert_eq!(rotated_tile(large, 2, 1, Rotation::NorthWest), (2, 1));
    assert_eq!(rotated_tile(large, 2, 1, Rotation::NorthEast), (0, 2));
    assert_eq!(rotated_tile(large, 2, 1, Rotation::SouthEast), (0, 0));
    assert_eq!(rotated_tile(large, 2, 1, Rotation::SouthWest), (1, 0));
    assert_eq!(rotated_dimensions(large, Rotation::NorthEast), ObjectDimensions { x: 2, y: 3 });
    assert_eq!(rotated_dimensions(large, Rotation::SouthEast), large);
    assert_eq!(tile_sprite_id(IffChunkId::new(100), large, 2, 1), Some(IffChunkId::new(105)));
    assert_eq!(tile_sprite_id(IffChunkId::new(32766), large, 2, 0), None);
}

#[test]
fn objects_are_checked_before_they_are_split() {
    let frame = |id: i16| FrameToSplit {
        name: "frame".to_owned(),
        sprite_id: IffChunkId::new(id),
        palette_id: IffChunkId::new(1),
    };
    let object = |x: i32, y: i32, ids: &[i16]| ObjectDescription {
        dimensions: ObjectDimensions { x, y },
        frames: ids.iter().map(|id| frame(*id)).collect(),
    };
    assert_eq!(check_object_description(&object(2, 3, &[100, 106, 94])), Ok(()));
    assert_eq!(check_object_description(&object(0, 3, &[100])), Err(Error::ObjectDimension));
    assert_eq!(check_object_description(&object(2, 33, &[100])), Err(Error::ObjectDimension));
    assert_eq!(check_object_description(&object(2, 3, &[])), Err(Error::NoFramesToSplit));
    assert_eq!(
        check_object_description(&object(2, 3, &[100, 110, 100])),
        Err(Error::DuplicateBaseSpriteId)
    );
    assert_eq!(
        check_object_description(&object(2, 3, &[100, 120, 105])),
        Err(Error::BaseSpriteIdsTooClose)
    );
}

#[test]
fn tile_is_empty_where_nothing_is_drawn() {
    let bitmap = |pixels: Vec<u8>| Bitmap { width: 2, height: 1, pixels, palette: vec![] };
    assert!(is_tile_empty(&vec![]));
    assert!(is_tile_empty(&vec![bitmap(vec![0, 0]), bitmap(vec![0, 0])]));
    assert!(!is_tile_empty(&vec![bitmap(vec![0, 0]), bitmap(vec![0, 3])]));
}
