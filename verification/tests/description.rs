use sims_iff::dgrp::{DrawGroup, DrawGroupItem, DrawGroupItemList};
use sims_iff::error::{file_read_error, file_write_error, Error, ErrorKind};
use sims_iff::iff::IffChunkId;
use sims_iff::iff_description::{
    deserialize_draw_groups, deserialize_object_definitions, deserialize_sprites, DrawGroups,
    IffDescription, ObjectDefinitions, Sprites,
};
use sims_iff::objd::ObjectDefinition;
use sims_iff::slot::Slot;
use sims_iff::spr::{
    Sprite, SpriteChannel, SpriteChannelType, SpriteFrame, SpriteIndex, SpriteType,
};
use sims_iff::sprite::{Rotation, SpriteBounds, SpriteImageDescription, SpriteOffsets, ZoomLevel};

fn definition(id: i16, guid: i32) -> ObjectDefinition {
    let mut definition = ObjectDefinition::default();
    definition.chunk_id = IffChunkId::new(id);
    definition.guid = guid;
    definition.subindex = -1;
    definition
}

fn image_description() -> SpriteImageDescription {
    SpriteImageDescription {
        width: 136,
        height: 384,
        bounds: SpriteBounds { left: 1, top: 2, right: 3, bottom: 4 },
        offsets: SpriteOffsets { x: 5, y: 6, x_flipped: 7 },
        palette_id: IffChunkId::new(8),
        transparent_color_index: 9,
    }
}

fn frame(index: i32, color_path: &str) -> SpriteFrame {
    SpriteFrame::new(
        index,
        ZoomLevel::One,
        Rotation::SouthWest,
        &image_description(),
        color_path,
        "z.bmp",
        "a.bmp",
    )
}

fn sprite(id: i16, frames: Vec<SpriteFrame>) -> Sprite {
    Sprite::new("sprite", IffChunkId::new(id), IffChunkId::new(8), frames)
}

fn item(sprite_id: i16, index: i32) -> DrawGroupItem {
    DrawGroupItem {
        sprite_chunk_id: IffChunkId::new(sprite_id),
        sprite_index: SpriteIndex::new(index),
        sprite_offset_x: 0,
        sprite_offset_y: 0,
        object_offset_x: 0,
        object_offset_y: 0,
        object_offset_z: 0,
        flags: 0,
    }
}

fn list(rotation: Rotation, zoom_level: ZoomLevel, items: Vec<DrawGroupItem>) -> DrawGroupItemList {
    DrawGroupItemList { rotation: (rotation, 1), zoom_level, draw_group_items: items }
}

fn group(id: i16, lists: Vec<DrawGroupItemList>) -> DrawGroup {
    DrawGroup {
        chunk_label: "group".to_owned(),
        chunk_id: IffChunkId::new(id),
        draw_group_item_lists: lists,
    }
}

fn ordered_lists() -> Vec<DrawGroupItemList> {
    let mut lists = Vec::new();
    for zoom_level in [ZoomLevel::Zero, ZoomLevel::One, ZoomLevel::Two] {
        for rotation in
            [Rotation::SouthEast, Rotation::NorthEast, Rotation::NorthWest, Rotation::SouthWest]
        {
            lists.push(list(rotation, zoom_level, vec![]));
        }
    }
    lists
}

#[test]
fn frame_is_made_from_its_description() {
    let frame = frame(3, "p.bmp");
    assert_eq!(frame.index.as_i32(), 3);
    assert_eq!(frame.bounds_left, 1);
    assert_eq!(frame.bounds_top, 2);
    assert_eq!(frame.bounds_right, 3);
    assert_eq!(frame.bounds_bottom, 4);
    assert_eq!(frame.width, 136);
    assert_eq!(frame.height, 384);
    assert_eq!(frame.palette_chunk_id, IffChunkId::new(8));
    assert_eq!(frame.transparent_color_index, 9);
    let id = IffChunkId::new(1);
    assert_eq!(frame.sprite_channel_file_path_relative(SpriteChannelType::Color, id), Ok("p.bmp"));
    assert_eq!(frame.sprite_channel_file_path_relative(SpriteChannelType::Depth, id), Ok("z.bmp"));
    assert_eq!(frame.sprite_channel_file_path_relative(SpriteChannelType::Alpha, id), Ok("a.bmp"));
    assert_eq!(frame.sprite_channel_position(SpriteChannelType::Alpha), Some(2));
}

#[test]
fn missing_channel_names_sprite_and_frame() {
    let mut frame = frame(3, "p.bmp");
    frame.sprite_channels.remove(0);
    let error = frame
        .sprite_channel_file_path_relative(SpriteChannelType::Color, IffChunkId::new(44))
        .unwrap_err();
    assert_eq!(error, Error::MissingChannel { sprite_id: 44, frame: 3, channel: SpriteChannelType::Color });
    assert_eq!(error.kind(), ErrorKind::Consistency);
    assert!(frame
        .sprite_channel_file_path_relative_mut(SpriteChannelType::Color, IffChunkId::new(44))
        .is_err());
}

#[test]
fn channel_path_can_be_changed_in_place() {
    let mut frame = frame(3, "p.bmp");
    let path = frame
        .sprite_channel_file_path_relative_mut(SpriteChannelType::Depth, IffChunkId::new(1))
        .unwrap();
    path.push_str(".bak");
    assert_eq!(frame.sprite_channels[1].file_path_relative, "z.bmp.bak");
    assert_eq!(frame.sprite_channels[0].file_path_relative, "p.bmp");
}

#[test]
fn new_sprite_is_modern_and_counts_its_frames() {
    let sprite = sprite(12, vec![frame(0, "p"), frame(1, "p")]);
    assert_eq!(sprite.sprite_type, SpriteType::Spr2);
    assert_eq!(sprite.sprite_frame_count, 2);
    assert_eq!(sprite.chunk_label, "sprite");
    assert_eq!(sprite.chunk_id, IffChunkId::new(12));
    assert_eq!(sprite.palette_chunk_id, IffChunkId::new(8));
}

#[test]
fn object_definitions_must_be_distinct() {
    let none = ObjectDefinitions { object_definitions: vec![] };
    assert_eq!(deserialize_object_definitions(&none), Err(Error::NoObjectDefinitions));
    let same_id = ObjectDefinitions {
        object_definitions: vec![definition(1, 10), definition(2, 20), definition(1, 30)],
    };
    assert_eq!(
        deserialize_object_definitions(&same_id),
        Err(Error::DuplicateObjectId { chunk_id: 1 })
    );
    let same_guid = ObjectDefinitions {
        object_definitions: vec![definition(1, 10), definition(2, 20), definition(3, 20)],
    };
    let error = deserialize_object_definitions(&same_guid).unwrap_err();
    assert_eq!(error, Error::DuplicateObjectGuid { guid: 20 });
    assert_eq!(error.kind(), ErrorKind::Schema);
    let fine = ObjectDefinitions { object_definitions: vec![definition(1, 10), definition(2, 20)] };
    assert_eq!(deserialize_object_definitions(&fine), Ok(()));
}

#[test]
fn item_lists_come_in_direction_and_scale_order() {
    let fine = DrawGroups { draw_groups: vec![group(1, ordered_lists()), group(2, vec![])] };
    assert_eq!(deserialize_draw_groups(&fine), Ok(()));
    let mut lists = ordered_lists();
    lists[5].rotation.0 = Rotation::SouthEast;
    let wrong_rotation = DrawGroups { draw_groups: vec![group(1, ordered_lists()), group(2, lists)] };
    assert_eq!(
        deserialize_draw_groups(&wrong_rotation),
        Err(Error::DrawGroupOrder { chunk_id: 2, list: 5 })
    );
    let mut lists = ordered_lists();
    lists[4].zoom_level = ZoomLevel::Zero;
    let wrong_zoom = DrawGroups { draw_groups: vec![group(3, lists)] };
    assert_eq!(
        deserialize_draw_groups(&wrong_zoom),
        Err(Error::DrawGroupOrder { chunk_id: 3, list: 4 })
    );
    let mut lists = ordered_lists();
    lists.push(list(Rotation::SouthEast, ZoomLevel::Two, vec![]));
    let too_many = DrawGroups { draw_groups: vec![group(4, lists)] };
    assert_eq!(
        deserialize_draw_groups(&too_many),
        Err(Error::DrawGroupOrder { chunk_id: 4, list: 12 })
    );
}

#[test]
fn sprites_must_be_in_order() {
    let fine = Sprites { sprites: vec![sprite(1, vec![frame(0, "p"), frame(1, "p")])] };
    assert_eq!(deserialize_sprites(&fine), Ok(()));
    let mut miscounted = sprite(2, vec![frame(0, "p")]);
    miscounted.sprite_frame_count = 3;
    assert_eq!(
        deserialize_sprites(&Sprites { sprites: vec![miscounted] }),
        Err(Error::FrameCountMismatch { sprite_id: 2 })
    );
    let misnumbered = sprite(3, vec![frame(0, "p"), frame(2, "p")]);
    assert_eq!(
        deserialize_sprites(&Sprites { sprites: vec![misnumbered] }),
        Err(Error::FrameIndexMismatch { sprite_id: 3, position: 1 })
    );
    let mut swapped = sprite(4, vec![frame(0, "p")]);
    swapped.sprite_frames[0].sprite_channels.swap(0, 1);
    assert_eq!(
        deserialize_sprites(&Sprites { sprites: vec![swapped] }),
        Err(Error::ChannelLayout { sprite_id: 4, frame: 0 })
    );
    let unnamed = sprite(5, vec![frame(0, "")]);
    assert_eq!(
        deserialize_sprites(&Sprites { sprites: vec![unnamed] }),
        Err(Error::ChannelPathEmpty { sprite_id: 5, frame: 0 })
    );
    let mut legacy = sprite(6, vec![frame(0, "p")]);
    legacy.sprite_type = SpriteType::Spr1;
    assert_eq!(
        deserialize_sprites(&Sprites { sprites: vec![legacy] }),
        Err(Error::ChannelLayout { sprite_id: 6, frame: 0 })
    );
    let mut legacy = sprite(7, vec![frame(0, "p")]);
    legacy.sprite_type = SpriteType::Spr1;
    legacy.sprite_frames[0].sprite_channels = vec![SpriteChannel {
        channel_type: SpriteChannelType::Depth,
        file_path_relative: "z.bmp".to_owned(),
    }];
    assert_eq!(deserialize_sprites(&Sprites { sprites: vec![legacy] }), Ok(()));
}

fn described() -> IffDescription {
    let mut description = IffDescription::default();
    let mut object = definition(1, 10);
    object.slot_chunk_id = IffChunkId::new(128);
    object.subindex = 0;
    object.basegraphic = 100;
    object.numgraphics = 2;
    object.dynspritebaseid = 200;
    object.numdynsprites = 1;
    description.object_definitions.object_definitions.push(object);
    description.slots.slots.push(Slot {
        chunk_label: String::new(),
        chunk_id: IffChunkId::new(128),
        slot_descriptors: vec![],
    });
    let lists = vec![list(Rotation::SouthEast, ZoomLevel::Zero, vec![item(200, 1)])];
    description.draw_groups.draw_groups.push(group(100, lists));
    description.draw_groups.draw_groups.push(group(101, vec![]));
    description.sprites.sprites.push(sprite(200, vec![frame(0, "p"), frame(1, "p")]));
    description
}

#[test]
fn references_must_be_described() {
    assert_eq!(described().check_references(), Ok(()));
    let mut no_slot = described();
    no_slot.slots.slots.clear();
    assert_eq!(no_slot.check_references(), Err(Error::MissingSlot { object_id: 1 }));
    no_slot.object_definitions.object_definitions[0].slot_chunk_id = IffChunkId::new(0);
    assert_eq!(no_slot.check_references(), Ok(()));
    let mut no_group = described();
    no_group.draw_groups.draw_groups.pop();
    assert_eq!(no_group.check_references(), Err(Error::MissingDrawGroup { object_id: 1 }));
    no_group.object_definitions.object_definitions[0].subindex = -1;
    assert_eq!(no_group.check_references(), Ok(()));
    let mut no_sprite = described();
    no_sprite.object_definitions.object_definitions[0].numdynsprites = 2;
    assert_eq!(no_sprite.check_references(), Err(Error::MissingSprite { chunk_id: 1 }));
    let mut no_frame = described();
    no_frame.draw_groups.draw_groups[0].draw_group_item_lists[0].draw_group_items[0].sprite_index =
        SpriteIndex::new(2);
    assert_eq!(no_frame.check_references(), Err(Error::MissingFrame { chunk_id: 100 }));
    let mut unknown = described();
    unknown.draw_groups.draw_groups[0].draw_group_item_lists[0].draw_group_items[0]
        .sprite_chunk_id = IffChunkId::new(201);
    assert_eq!(unknown.check_references(), Err(Error::MissingSprite { chunk_id: 100 }));
}

#[test]
fn variant_is_changed_in_the_colour_paths() {
    let mut description = IffDescription::default();
    description.sprites.sprites.push(sprite(
        1,
        vec![
            frame(0, "chair - red - sprites/a - red - sprites/large_nw_p.bmp"),
            frame(1, "chair - blue - sprites/x.bmp"),
        ],
    ));
    let mut legacy = sprite(2, vec![frame(0, "wall - red - sprites/p.bmp")]);
    legacy.sprite_type = SpriteType::Spr1;
    description.sprites.sprites.push(legacy);
    description.update_sprite_variants("red", "green").unwrap();
    let frames = &description.sprites.sprites[0].sprite_frames;
    assert_eq!(
        frames[0].sprite_channels[0].file_path_relative,
        "chair - green - sprites/a - red - sprites/large_nw_p.bmp"
    );
    assert_eq!(frames[0].sprite_channels[1].file_path_relative, "z.bmp");
    assert_eq!(frames[0].sprite_channels[2].file_path_relative, "a.bmp");
    assert_eq!(frames[1].sprite_channels[0].file_path_relative, "chair - blue - sprites/x.bmp");
    assert_eq!(
        description.sprites.sprites[1].sprite_frames[0].sprite_channels[0].file_path_relative,
        "wall - red - sprites/p.bmp"
    );
}

#[test]
fn variant_update_needs_colour_channels() {
    let mut description = IffDescription::default();
    description.sprites.sprites.push(sprite(1, vec![frame(0, "a - red - sprites/p.bmp")]));
    let mut broken = sprite(
        2,
        vec![frame(0, "b - red - sprites/q.bmp"), frame(1, "c"), frame(2, "d - red - sprites/r.bmp")],
    );
    broken.sprite_frames[1].sprite_channels.remove(0);
    description.sprites.sprites.push(broken);
    description.sprites.sprites.push(sprite(3, vec![frame(0, "e - red - sprites/s.bmp")]));
    assert_eq!(
        description.update_sprite_variants("red", "green"),
        Err(Error::MissingChannel { sprite_id: 2, frame: 1, channel: SpriteChannelType::Color })
    );
    let sprites = &description.sprites.sprites;
    let color = |s: usize, f: usize| {
        sprites[s].sprite_frames[f].sprite_channels[0].file_path_relative.as_str()
    };
    assert_eq!(color(0, 0), "a - green - sprites/p.bmp");
    assert_eq!(color(1, 0), "b - green - sprites/q.bmp");
    assert_eq!(sprites[1].sprite_frames[1].sprite_channels.len(), 2);
    assert_eq!(color(1, 2), "d - red - sprites/r.bmp");
    assert_eq!(color(2, 0), "e - red - sprites/s.bmp");
}

#[test]
fn messages_name_the_file() {
    assert_eq!(file_read_error("a/b.iff"), "Failed to read a/b.iff");
    assert_eq!(file_write_error("c.xml"), "Failed to write c.xml");
}
