//! The description of an object: everything a rebuild writes anew, as the
//! values that were read from the object's description file.

use crate::dgrp::{DrawGroup, DrawGroupItemList};
use crate::error::Error;
use crate::iff::IffChunkId;
use crate::objd::ObjectDefinition;
use crate::slot::Slot;
use crate::spr::{Sprite, SpriteChannelType, SpriteFrame, SpriteType};
use crate::sprite::{Rotation, ZoomLevel};
use vstd::prelude::*;

verus! {

/// The object definitions of a description.
#[derive(Debug)]
pub struct ObjectDefinitions {
    pub object_definitions: Vec<ObjectDefinition>,
}

/// The slot records of a description.
#[derive(Debug)]
pub struct Slots {
    pub slots: Vec<Slot>,
}

/// The draw groups of a description.
#[derive(Debug)]
pub struct DrawGroups {
    pub draw_groups: Vec<DrawGroup>,
}

/// The sprites of a description.
#[derive(Debug)]
pub struct Sprites {
    pub sprites: Vec<Sprite>,
}

/// The description of an object: the archive it belongs to, the switches
/// of the exporter that wrote the description, and the records.
#[derive(Debug)]
pub struct IffDescription {
    pub iff_file_path_relative: String,
    pub exportobjectdefinitions: i32,
    pub exportslots: i32,
    pub exportdrawgroups: i32,
    pub exportbitmaps: i32,
    pub exportsprites: i32,
    pub justchangecolors: i32,
    pub exportallzooms: i32,
    pub smoothsmallzoomcolors: i32,
    pub smoothsmallzoomedges: i32,
    pub exportexpanded: i32,
    pub exportp: i32,
    pub exportz: i32,
    pub generatez: i32,
    pub generatezfar: i32,
    pub exporta: i32,
    pub generatea: i32,
    pub generateasoft: i32,
    pub compressbitmaps: i32,
    pub createsubdirectories: i32,
    pub thingstodo: i32,
    pub object_definitions: ObjectDefinitions,
    pub slots: Slots,
    pub draw_groups: DrawGroups,
    pub sprites: Sprites,
}

impl Default for IffDescription {
    /// The description without records, with every switch zero.
    fn default() -> (description: IffDescription)
        ensures
            description.iff_file_path_relative@ == Seq::<char>::empty(),
            description.exportobjectdefinitions == 0,
            description.exportslots == 0,
            description.exportdrawgroups == 0,
            description.exportbitmaps == 0,
            description.exportsprites == 0,
            description.justchangecolors == 0,
            description.exportallzooms == 0,
            description.smoothsmallzoomcolors == 0,
            description.smoothsmallzoomedges == 0,
            description.exportexpanded == 0,
            description.exportp == 0,
            description.exportz == 0,
            description.generatez == 0,
            description.generatezfar == 0,
            description.exporta == 0,
            description.generatea == 0,
            description.generateasoft == 0,
            description.compressbitmaps == 0,
            description.createsubdirectories == 0,
            description.thingstodo == 0,
            description.object_definitions.object_definitions@.len() == 0,
            description.slots.slots@.len() == 0,
            description.draw_groups.draw_groups@.len() == 0,
            description.sprites.sprites@.len() == 0,
    {
        IffDescription {
            iff_file_path_relative: String::new(),
            exportobjectdefinitions: 0,
            exportslots: 0,
            exportdrawgroups: 0,
            exportbitmaps: 0,
            exportsprites: 0,
            justchangecolors: 0,
            exportallzooms: 0,
            smoothsmallzoomcolors: 0,
            smoothsmallzoomedges: 0,
            exportexpanded: 0,
            exportp: 0,
            exportz: 0,
            generatez: 0,
            generatezfar: 0,
            exporta: 0,
            generatea: 0,
            generateasoft: 0,
            compressbitmaps: 0,
            createsubdirectories: 0,
            thingstodo: 0,
            object_definitions: ObjectDefinitions { object_definitions: Vec::new() },
            slots: Slots { slots: Vec::new() },
            draw_groups: DrawGroups { draw_groups: Vec::new() },
            sprites: Sprites { sprites: Vec::new() },
        }
    }
}

/// Whether no two of the definitions share a chunk id.
pub open spec fn distinct_object_ids(definitions: Seq<ObjectDefinition>) -> bool {
    forall|i: int, j: int|
        0 <= i < j < definitions.len() ==> (#[trigger] definitions[i]).chunk_id != (
        #[trigger] definitions[j]).chunk_id
}

/// Whether no two of the definitions share a GUID.
pub open spec fn distinct_object_guids(definitions: Seq<ObjectDefinition>) -> bool {
    forall|i: int, j: int|
        0 <= i < j < definitions.len() ==> (#[trigger] definitions[i]).guid != (
        #[trigger] definitions[j]).guid
}

/// The chunk id of the first of the first `k` definitions that shares its
/// chunk id with one before it.
pub open spec fn repeated_object_id(definitions: Seq<ObjectDefinition>, k: int) -> Option<i16>
    decreases k,
{
    if k <= 0 {
        None
    } else {
        match repeated_object_id(definitions, k - 1) {
            Some(id) => Some(id),
            None => if exists|i: int|
                0 <= i < k - 1 && (#[trigger] definitions[i]).chunk_id == definitions[k
                    - 1].chunk_id {
                Some(definitions[k - 1].chunk_id.0)
            } else {
                None
            },
        }
    }
}

/// The GUID of the first of the first `k` definitions that shares its
/// GUID with one before it.
pub open spec fn repeated_object_guid(definitions: Seq<ObjectDefinition>, k: int) -> Option<i32>
    decreases k,
{
    if k <= 0 {
        None
    } else {
        match repeated_object_guid(definitions, k - 1) {
            Some(guid) => Some(guid),
            None => if exists|i: int|
                0 <= i < k - 1 && (#[trigger] definitions[i]).guid == definitions[k - 1].guid {
                Some(definitions[k - 1].guid)
            } else {
                None
            },
        }
    }
}

/// Once a definition repeats a chunk id, definitions that follow do not
/// change which one is reported, and the same for GUIDs.
pub proof fn lemma_repeated_object(definitions: Seq<ObjectDefinition>, k: int, n: int)
    requires
        0 <= k <= n,
    ensures
        repeated_object_id(definitions, k) is Some ==> repeated_object_id(definitions, n)
            == repeated_object_id(definitions, k),
        repeated_object_guid(definitions, k) is Some ==> repeated_object_guid(definitions, n)
            == repeated_object_guid(definitions, k),
    decreases n - k,
{
    if k < n {
        lemma_repeated_object(definitions, k, n - 1);
    }
}

/// Definitions none of which repeats a chunk id, or a GUID, are distinct
/// in it.
pub proof fn lemma_distinct_objects(definitions: Seq<ObjectDefinition>, k: int)
    requires
        0 <= k <= definitions.len(),
    ensures
        repeated_object_id(definitions, k) is None ==> forall|i: int, j: int|
            0 <= i < j < k ==> (#[trigger] definitions[i]).chunk_id != (
            #[trigger] definitions[j]).chunk_id,
        repeated_object_guid(definitions, k) is None ==> forall|i: int, j: int|
            0 <= i < j < k ==> (#[trigger] definitions[i]).guid != (#[trigger] definitions[j]).guid,
    decreases k,
{
    if k > 0 {
        lemma_distinct_objects(definitions, k - 1);
    }
}

/// Why the definitions are not those of a description, if they are not:
/// there must be one at least, and no two may share a chunk id or a GUID.
/// The error names the chunk id, or the GUID, of the first definition that
/// shares it with one before it.
pub open spec fn object_definitions_defect(definitions: Seq<ObjectDefinition>) -> Option<Error> {
    let n = definitions.len() as int;
    if n == 0 {
        Some(Error::NoObjectDefinitions)
    } else {
        match repeated_object_id(definitions, n) {
            Some(chunk_id) => Some(Error::DuplicateObjectId { chunk_id }),
            None => match repeated_object_guid(definitions, n) {
                Some(guid) => Some(Error::DuplicateObjectGuid { guid }),
                None => None,
            },
        }
    }
}

/// Definitions without a defect are distinct in their chunk ids and in
/// their GUIDs.
pub proof fn lemma_checked_objects_are_distinct(definitions: Seq<ObjectDefinition>)
    requires
        object_definitions_defect(definitions) is None,
    ensures
        distinct_object_ids(definitions),
        distinct_object_guids(definitions),
{
    lemma_distinct_objects(definitions, definitions.len() as int);
}

/// Checks the object definitions of a description.
pub fn deserialize_object_definitions(object_definitions: &ObjectDefinitions) -> (r: Result<
    (),
    Error,
>)
    ensures
        match r {
            Ok(_) => object_definitions_defect(object_definitions.object_definitions@) is None,
            Err(e) => object_definitions_defect(object_definitions.object_definitions@) == Some(e),
        },
{
    let objds = &object_definitions.object_definitions;
    if objds.len() == 0 {
        return Err(Error::NoObjectDefinitions);
    }
    let mut j: usize = 0;
    while j < objds.len()
        invariant
            j <= objds.len(),
            objds@.len() > 0,
            objds@ == object_definitions.object_definitions@,
            repeated_object_id(objds@, j as int) is None,
        decreases objds.len() - j,
    {
        let mut i: usize = 0;
        while i < j
            invariant
                i <= j < objds.len(),
                objds@ == object_definitions.object_definitions@,
                repeated_object_id(objds@, j as int) is None,
                forall|a: int| 0 <= a < i ==> (#[trigger] objds@[a]).chunk_id != objds@[j as int].chunk_id,
            decreases j - i,
        {
            if objds[i].chunk_id.as_i16() == objds[j].chunk_id.as_i16() {
                proof {
                    assert(objds@[i as int].chunk_id == objds@[j as int].chunk_id);
                    assert(repeated_object_id(objds@, j + 1) == Some(objds@[j as int].chunk_id.0));
                    lemma_repeated_object(objds@, j + 1, objds@.len() as int);
                }
                return Err(Error::DuplicateObjectId { chunk_id: objds[j].chunk_id.as_i16() });
            }
            i += 1;
        }
        j += 1;
    }
    let mut j: usize = 0;
    while j < objds.len()
        invariant
            j <= objds.len(),
            objds@.len() > 0,
            objds@ == object_definitions.object_definitions@,
            repeated_object_id(objds@, objds@.len() as int) is None,
            repeated_object_guid(objds@, j as int) is None,
        decreases objds.len() - j,
    {
        let mut i: usize = 0;
        while i < j
            invariant
                i <= j < objds.len(),
                objds@ == object_definitions.object_definitions@,
                repeated_object_id(objds@, objds@.len() as int) is None,
                repeated_object_guid(objds@, j as int) is None,
                forall|a: int| 0 <= a < i ==> (#[trigger] objds@[a]).guid != objds@[j as int].guid,
            decreases j - i,
        {
            if objds[i].guid == objds[j].guid {
                proof {
                    assert(objds@[i as int].guid == objds@[j as int].guid);
                    assert(repeated_object_guid(objds@, j + 1) == Some(objds@[j as int].guid));
                    lemma_repeated_object(objds@, j + 1, objds@.len() as int);
                }
                return Err(Error::DuplicateObjectGuid { guid: objds[j].guid });
            }
            i += 1;
        }
        j += 1;
    }
    Ok(())
}

/// The direction of item list `i` of a draw group: the four directions
/// follow each other, from south-east on, within each scale.
pub open spec fn list_rotation(i: int) -> Rotation {
    if i % 4 == 0 {
        Rotation::SouthEast
    } else if i % 4 == 1 {
        Rotation::NorthEast
    } else if i % 4 == 2 {
        Rotation::NorthWest
    } else {
        Rotation::SouthWest
    }
}

/// The scale of item list `i` of a draw group: four lists for each scale,
/// from the largest on; there is none from the thirteenth list on.
pub open spec fn list_zoom_level(i: int) -> Option<ZoomLevel> {
    if i / 4 == 0 {
        Some(ZoomLevel::Zero)
    } else if i / 4 == 1 {
        Some(ZoomLevel::One)
    } else if i / 4 == 2 {
        Some(ZoomLevel::Two)
    } else {
        None
    }
}

/// Whether item list `i` stands where a list of its direction and scale
/// belongs.
pub open spec fn list_in_order(list: DrawGroupItemList, i: int) -> bool {
    list.rotation.0 == list_rotation(i) && list_zoom_level(i) == Some(list.zoom_level)
}

/// The error for the first of the first `k` item lists of `group` that is
/// out of order.
pub open spec fn group_defect(group: DrawGroup, k: int) -> Option<Error>
    decreases k,
{
    if k <= 0 {
        None
    } else {
        match group_defect(group, k - 1) {
            Some(e) => Some(e),
            None => if list_in_order(group.draw_group_item_lists@[k - 1], k - 1) {
                None
            } else {
                Some(
                    Error::DrawGroupOrder {
                        chunk_id: group.chunk_id.0,
                        list: (k - 1) as i32,
                    },
                )
            },
        }
    }
}

/// The error for the first of the first `k` draw groups that has an item
/// list out of order.
pub open spec fn draw_groups_defect(groups: Seq<DrawGroup>, k: int) -> Option<Error>
    decreases k,
{
    if k <= 0 {
        None
    } else {
        match draw_groups_defect(groups, k - 1) {
            Some(e) => Some(e),
            None => group_defect(
                groups[k - 1],
                groups[k - 1].draw_group_item_lists@.len() as int,
            ),
        }
    }
}

/// Once an item list is out of order, lists that follow do not change
/// which one is reported.
pub proof fn lemma_group_defect(group: DrawGroup, k: int, n: int)
    requires
        0 <= k <= n,
        group_defect(group, k) is Some,
    ensures
        group_defect(group, n) == group_defect(group, k),
    decreases n - k,
{
    if k < n {
        lemma_group_defect(group, k, n - 1);
    }
}

/// Once a draw group is out of order, groups that follow do not change
/// which one is reported.
pub proof fn lemma_draw_groups_defect(groups: Seq<DrawGroup>, k: int, n: int)
    requires
        0 <= k <= n,
        draw_groups_defect(groups, k) is Some,
    ensures
        draw_groups_defect(groups, n) == draw_groups_defect(groups, k),
    decreases n - k,
{
    if k < n {
        lemma_draw_groups_defect(groups, k, n - 1);
    }
}

/// Checks one draw group: its item lists must come in the order of the
/// directions within the order of the scales.
fn check_draw_group(group: &DrawGroup) -> (r: Result<(), Error>)
    ensures
        match r {
            Ok(_) => group_defect(*group, group.draw_group_item_lists@.len() as int) is None,
            Err(e) => group_defect(*group, group.draw_group_item_lists@.len() as int) == Some(e),
        },
{
    let mut i: usize = 0;
    while i < group.draw_group_item_lists.len()
        invariant
            i <= group.draw_group_item_lists.len(),
            group_defect(*group, i as int) is None,
        decreases group.draw_group_item_lists.len() - i,
    {
        let list = &group.draw_group_item_lists[i];
        let rotation = match i % 4 {
            0 => Rotation::SouthEast,
            1 => Rotation::NorthEast,
            2 => Rotation::NorthWest,
            _ => Rotation::SouthWest,
        };
        let in_order = list.rotation.0 == rotation && match i / 4 {
            0 => list.zoom_level == ZoomLevel::Zero,
            1 => list.zoom_level == ZoomLevel::One,
            2 => list.zoom_level == ZoomLevel::Two,
            _ => false,
        };
        if !in_order {
            proof {
                lemma_group_defect(*group, i + 1, group.draw_group_item_lists@.len() as int);
            }
            return Err(
                Error::DrawGroupOrder { chunk_id: group.chunk_id.as_i16(), list: i as i32 },
            );
        }
        i += 1;
    }
    Ok(())
}

/// Checks the draw groups of a description.
pub fn deserialize_draw_groups(draw_groups: &DrawGroups) -> (r: Result<(), Error>)
    ensures
        match r {
            Ok(_) => draw_groups_defect(
                draw_groups.draw_groups@,
                draw_groups.draw_groups@.len() as int,
            ) is None,
            Err(e) => draw_groups_defect(
                draw_groups.draw_groups@,
                draw_groups.draw_groups@.len() as int,
            ) == Some(e),
        },
{
    let groups = &draw_groups.draw_groups;
    let mut i: usize = 0;
    while i < groups.len()
        invariant
            i <= groups.len(),
            groups@ == draw_groups.draw_groups@,
            draw_groups_defect(groups@, i as int) is None,
        decreases groups.len() - i,
    {
        match check_draw_group(&groups[i]) {
            Ok(_) => {},
            Err(e) => {
                proof {
                    lemma_draw_groups_defect(groups@, i + 1, groups@.len() as int);
                }
                return Err(e);
            },
        }
        i += 1;
    }
    Ok(())
}

/// Whether the channels are those that a frame of a sprite of this type
/// has: the depth channel alone for the legacy format, and colour, depth
/// and alpha in this order for the modern one.
pub open spec fn channels_fit(sprite_type: SpriteType, frame: SpriteFrame) -> bool {
    let channels = frame.sprite_channels@;
    match sprite_type {
        SpriteType::Spr1 => channels.len() == 1 && channels[0].channel_type
            == SpriteChannelType::Depth,
        SpriteType::Spr2 => channels.len() == 3 && channels[0].channel_type
            == SpriteChannelType::Color && channels[1].channel_type == SpriteChannelType::Depth
            && channels[2].channel_type == SpriteChannelType::Alpha,
    }
}

/// Whether every channel of the frame names a file.
pub open spec fn channels_named(frame: SpriteFrame) -> bool {
    forall|c: int|
        0 <= c < frame.sprite_channels@.len() ==> (
        #[trigger] frame.sprite_channels@[c]).file_path_relative@.len() > 0
}

/// Why the frame at `position` is not a frame of `sprite`, if it is not:
/// its index must be its position, its channels those of the format, and
/// every channel must name a file.
pub open spec fn frame_defect(sprite: Sprite, position: int) -> Option<Error> {
    let frame = sprite.sprite_frames@[position];
    if frame.index.0 != position {
        Some(Error::FrameIndexMismatch { sprite_id: sprite.chunk_id.0, position: position as i32 })
    } else if !channels_fit(sprite.sprite_type, frame) {
        Some(Error::ChannelLayout { sprite_id: sprite.chunk_id.0, frame: frame.index.0 })
    } else if !channels_named(frame) {
        Some(Error::ChannelPathEmpty { sprite_id: sprite.chunk_id.0, frame: frame.index.0 })
    } else {
        None
    }
}

/// The defect of the first of the first `k` frames that has one.
pub open spec fn frames_defect(sprite: Sprite, k: int) -> Option<Error>
    decreases k,
{
    if k <= 0 {
        None
    } else {
        match frames_defect(sprite, k - 1) {
            Some(e) => Some(e),
            None => frame_defect(sprite, k - 1),
        }
    }
}

/// Why the sprite is not one of a description, if it is not: it must have
/// as many frames as it declares, and no more than a 32-bit count can say,
/// and every frame must be in order.
pub open spec fn sprite_defect(sprite: Sprite) -> Option<Error> {
    if sprite.sprite_frames@.len() > i32::MAX {
        Some(Error::TooLarge { chunk_id: sprite.chunk_id.0 })
    } else if sprite.sprite_frame_count != sprite.sprite_frames@.len() {
        Some(Error::FrameCountMismatch { sprite_id: sprite.chunk_id.0 })
    } else {
        frames_defect(sprite, sprite.sprite_frames@.len() as int)
    }
}

/// The defect of the first of the first `k` sprites that has one.
pub open spec fn sprites_defect(sprites: Seq<Sprite>, k: int) -> Option<Error>
    decreases k,
{
    if k <= 0 {
        None
    } else {
        match sprites_defect(sprites, k - 1) {
            Some(e) => Some(e),
            None => sprite_defect(sprites[k - 1]),
        }
    }
}

/// Once a frame has a defect, frames that follow do not change which
/// defect comes first.
pub proof fn lemma_frames_defect(sprite: Sprite, k: int, n: int)
    requires
        0 <= k <= n,
        frames_defect(sprite, k) is Some,
    ensures
        frames_defect(sprite, n) == frames_defect(sprite, k),
    decreases n - k,
{
    if k < n {
        lemma_frames_defect(sprite, k, n - 1);
    }
}

/// Once a sprite has a defect, sprites that follow do not change which
/// defect comes first.
pub proof fn lemma_sprites_defect(sprites: Seq<Sprite>, k: int, n: int)
    requires
        0 <= k <= n,
        sprites_defect(sprites, k) is Some,
    ensures
        sprites_defect(sprites, n) == sprites_defect(sprites, k),
    decreases n - k,
{
    if k < n {
        lemma_sprites_defect(sprites, k, n - 1);
    }
}

/// Checks the channels of a frame against the format of its sprite.
fn check_channels(sprite_type: SpriteType, frame: &SpriteFrame) -> (ok: bool)
    ensures
        ok == channels_fit(sprite_type, *frame),
{
    let channels = &frame.sprite_channels;
    match sprite_type {
        SpriteType::Spr1 => channels.len() == 1 && channels[0].channel_type
            == SpriteChannelType::Depth,
        SpriteType::Spr2 => channels.len() == 3 && channels[0].channel_type
            == SpriteChannelType::Color && channels[1].channel_type == SpriteChannelType::Depth
            && channels[2].channel_type == SpriteChannelType::Alpha,
    }
}

/// Whether every channel of the frame names a file.
fn check_channel_names(frame: &SpriteFrame) -> (ok: bool)
    ensures
        ok == channels_named(*frame),
{
    let mut c: usize = 0;
    while c < frame.sprite_channels.len()
        invariant
            c <= frame.sprite_channels.len(),
            forall|b: int|
                0 <= b < c ==> (#[trigger] frame.sprite_channels@[b]).file_path_relative@.len()
                    > 0,
        decreases frame.sprite_channels.len() - c,
    {
        if frame.sprite_channels[c].file_path_relative.as_str().is_empty() {
            return false;
        }
        c += 1;
    }
    true
}

/// Checks one sprite of a description.
fn check_sprite(sprite: &Sprite) -> (r: Result<(), Error>)
    ensures
        match r {
            Ok(_) => sprite_defect(*sprite) is None,
            Err(e) => sprite_defect(*sprite) == Some(e),
        },
{
    if sprite.sprite_frames.len() > 0x7fff_ffff {
        return Err(Error::TooLarge { chunk_id: sprite.chunk_id.as_i16() });
    }
    if sprite.sprite_frame_count < 0 || sprite.sprite_frame_count as usize
        != sprite.sprite_frames.len() {
        return Err(Error::FrameCountMismatch { sprite_id: sprite.chunk_id.as_i16() });
    }
    let mut i: usize = 0;
    while i < sprite.sprite_frames.len()
        invariant
            i <= sprite.sprite_frames.len() <= i32::MAX,
            sprite.sprite_frame_count == sprite.sprite_frames@.len(),
            frames_defect(*sprite, i as int) is None,
        decreases sprite.sprite_frames.len() - i,
    {
        let frame = &sprite.sprite_frames[i];
        let defect = if frame.index.as_i32() != i as i32 {
            Some(
                Error::FrameIndexMismatch {
                    sprite_id: sprite.chunk_id.as_i16(),
                    position: i as i32,
                },
            )
        } else if !check_channels(sprite.sprite_type, frame) {
            Some(
                Error::ChannelLayout {
                    sprite_id: sprite.chunk_id.as_i16(),
                    frame: frame.index.as_i32(),
                },
            )
        } else if !check_channel_names(frame) {
            Some(
                Error::ChannelPathEmpty {
                    sprite_id: sprite.chunk_id.as_i16(),
                    frame: frame.index.as_i32(),
                },
            )
        } else {
            None
        };
        match defect {
            Some(e) => {
                proof {
                    lemma_frames_defect(*sprite, i + 1, sprite.sprite_frames@.len() as int);
                }
                return Err(e);
            },
            None => {},
        }
        i += 1;
    }
    Ok(())
}

/// Checks the sprites of a description: the number of frames that each
/// declares, the indices of the frames, and the channels of each frame.
pub fn deserialize_sprites(sprites: &Sprites) -> (r: Result<(), Error>)
    ensures
        match r {
            Ok(_) => sprites_defect(sprites.sprites@, sprites.sprites@.len() as int) is None,
            Err(e) => sprites_defect(sprites.sprites@, sprites.sprites@.len() as int) == Some(e),
        },
{
    let mut i: usize = 0;
    while i < sprites.sprites.len()
        invariant
            i <= sprites.sprites.len(),
            sprites_defect(sprites.sprites@, i as int) is None,
        decreases sprites.sprites.len() - i,
    {
        match check_sprite(&sprites.sprites[i]) {
            Ok(_) => {},
            Err(e) => {
                proof {
                    lemma_sprites_defect(
                        sprites.sprites@,
                        i + 1,
                        sprites.sprites@.len() as int,
                    );
                }
                return Err(e);
            },
        }
        i += 1;
    }
    Ok(())
}

/// Whether one of the slot records has the id `id`.
pub open spec fn has_slot(slots: Seq<Slot>, id: int) -> bool {
    exists|i: int| 0 <= i < slots.len() && (#[trigger] slots[i]).chunk_id.0 == id
}

/// Whether one of the draw groups has the id `id`.
pub open spec fn has_draw_group(groups: Seq<DrawGroup>, id: int) -> bool {
    exists|i: int| 0 <= i < groups.len() && (#[trigger] groups[i]).chunk_id.0 == id
}

/// Whether one of the sprites has the id `id`.
pub open spec fn has_sprite(sprites: Seq<Sprite>, id: int) -> bool {
    exists|i: int| 0 <= i < sprites.len() && (#[trigger] sprites[i]).chunk_id.0 == id
}

/// Whether the `count` draw groups from the id `base` on are all
/// described.
pub open spec fn has_draw_groups(groups: Seq<DrawGroup>, base: int, count: int) -> bool {
    forall|k: int| 0 <= k < count ==> #[trigger] has_draw_group(groups, base + k)
}

/// Whether the `count` sprites from the id `base` on are all described.
pub open spec fn has_sprites(sprites: Seq<Sprite>, base: int, count: int) -> bool {
    forall|k: int| 0 <= k < count ==> #[trigger] has_sprite(sprites, base + k)
}

/// What the object definition refers to that is not described, if there is
/// such a thing: its slot record, unless that is 0; and, unless the
/// definition is that of a part of a larger object, its draw groups and
/// its dynamic sprites.
pub open spec fn definition_defect(
    definition: ObjectDefinition,
    slots: Seq<Slot>,
    groups: Seq<DrawGroup>,
    sprites: Seq<Sprite>,
) -> Option<Error> {
    if definition.slot_chunk_id.0 != 0 && !has_slot(slots, definition.slot_chunk_id.0 as int) {
        Some(Error::MissingSlot { object_id: definition.chunk_id.0 })
    } else if definition.subindex != -1 && !has_draw_groups(
        groups,
        definition.basegraphic as int,
        definition.numgraphics as int,
    ) {
        Some(Error::MissingDrawGroup { object_id: definition.chunk_id.0 })
    } else if definition.subindex != -1 && !has_sprites(
        sprites,
        definition.dynspritebaseid as int,
        definition.numdynsprites as int,
    ) {
        Some(Error::MissingSprite { chunk_id: definition.chunk_id.0 })
    } else {
        None
    }
}

/// The index of the first sprite with the id `id`.
pub open spec fn sprite_at(sprites: Seq<Sprite>, id: i16) -> Option<int>
    decreases sprites.len(),
{
    if sprites.len() == 0 {
        None
    } else if sprites[0].chunk_id.0 == id {
        Some(0)
    } else {
        match sprite_at(sprites.drop_first(), id) {
            Some(i) => Some(i + 1),
            None => None,
        }
    }
}

/// What is wrong with an item of the draw group `group_id`, if something
/// is: the sprite it shows must be described, and must declare more
/// frames than the index of the frame that is shown.
pub open spec fn item_defect(item: crate::dgrp::DrawGroupItem, group_id: i16, sprites: Seq<Sprite>)
    -> Option<Error> {
    match sprite_at(sprites, item.sprite_chunk_id.0) {
        None => Some(Error::MissingSprite { chunk_id: group_id }),
        Some(i) => if sprites[i].sprite_frame_count > item.sprite_index.0 {
            None
        } else {
            Some(Error::MissingFrame { chunk_id: group_id })
        },
    }
}

/// The defect of the first of the first `k` items of a list that has one.
pub open spec fn items_defect(list: DrawGroupItemList, group_id: i16, sprites: Seq<Sprite>, k: int)
    -> Option<Error>
    decreases k,
{
    if k <= 0 {
        None
    } else {
        match items_defect(list, group_id, sprites, k - 1) {
            Some(e) => Some(e),
            None => item_defect(list.draw_group_items@[k - 1], group_id, sprites),
        }
    }
}

/// The defect of the first item, in the first `k` lists of a draw group,
/// that has one.
pub open spec fn lists_defect(group: DrawGroup, sprites: Seq<Sprite>, k: int) -> Option<Error>
    decreases k,
{
    if k <= 0 {
        None
    } else {
        match lists_defect(group, sprites, k - 1) {
            Some(e) => Some(e),
            None => items_defect(
                group.draw_group_item_lists@[k - 1],
                group.chunk_id.0,
                sprites,
                group.draw_group_item_lists@[k - 1].draw_group_items@.len() as int,
            ),
        }
    }
}

/// The defect of the first item, in the first `k` draw groups, that has
/// one.
pub open spec fn groups_defect(groups: Seq<DrawGroup>, sprites: Seq<Sprite>, k: int) -> Option<
    Error,
>
    decreases k,
{
    if k <= 0 {
        None
    } else {
        match groups_defect(groups, sprites, k - 1) {
            Some(e) => Some(e),
            None => lists_defect(
                groups[k - 1],
                sprites,
                groups[k - 1].draw_group_item_lists@.len() as int,
            ),
        }
    }
}

/// The defect of the first of the first `k` object definitions that has
/// one.
pub open spec fn definitions_defect(description: IffDescription, k: int) -> Option<Error>
    decreases k,
{
    if k <= 0 {
        None
    } else {
        match definitions_defect(description, k - 1) {
            Some(e) => Some(e),
            None => definition_defect(
                description.object_definitions.object_definitions@[k - 1],
                description.slots.slots@,
                description.draw_groups.draw_groups@,
                description.sprites.sprites@,
            ),
        }
    }
}

/// What a record of the description refers to that is not described: the
/// first such thing among the object definitions, or else among the items
/// of the draw groups.
pub open spec fn references_defect(description: IffDescription) -> Option<Error> {
    match definitions_defect(
        description,
        description.object_definitions.object_definitions@.len() as int,
    ) {
        Some(e) => Some(e),
        None => groups_defect(
            description.draw_groups.draw_groups@,
            description.sprites.sprites@,
            description.draw_groups.draw_groups@.len() as int,
        ),
    }
}

/// Once an item has a defect, items that follow do not change which defect
/// comes first.
pub proof fn lemma_items_defect(
    list: DrawGroupItemList,
    group_id: i16,
    sprites: Seq<Sprite>,
    k: int,
    n: int,
)
    requires
        0 <= k <= n,
        items_defect(list, group_id, sprites, k) is Some,
    ensures
        items_defect(list, group_id, sprites, n) == items_defect(list, group_id, sprites, k),
    decreases n - k,
{
    if k < n {
        lemma_items_defect(list, group_id, sprites, k, n - 1);
    }
}

/// The same for the lists of a draw group.
pub proof fn lemma_lists_defect(group: DrawGroup, sprites: Seq<Sprite>, k: int, n: int)
    requires
        0 <= k <= n,
        lists_defect(group, sprites, k) is Some,
    ensures
        lists_defect(group, sprites, n) == lists_defect(group, sprites, k),
    decreases n - k,
{
    if k < n {
        lemma_lists_defect(group, sprites, k, n - 1);
    }
}

/// The same for the draw groups.
pub proof fn lemma_groups_defect(groups: Seq<DrawGroup>, sprites: Seq<Sprite>, k: int, n: int)
    requires
        0 <= k <= n,
        groups_defect(groups, sprites, k) is Some,
    ensures
        groups_defect(groups, sprites, n) == groups_defect(groups, sprites, k),
    decreases n - k,
{
    if k < n {
        lemma_groups_defect(groups, sprites, k, n - 1);
    }
}

/// The same for the object definitions.
pub proof fn lemma_definitions_defect(description: IffDescription, k: int, n: int)
    requires
        0 <= k <= n,
        definitions_defect(description, k) is Some,
    ensures
        definitions_defect(description, n) == definitions_defect(description, k),
    decreases n - k,
{
    if k < n {
        lemma_definitions_defect(description, k, n - 1);
    }
}

/// Whether one of the slot records has the id `id`.
fn find_slot(slots: &Vec<Slot>, id: i32) -> (found: bool)
    ensures
        found == has_slot(slots@, id as int),
{
    let mut i: usize = 0;
    while i < slots.len()
        invariant
            i <= slots.len(),
            forall|j: int| 0 <= j < i ==> (#[trigger] slots@[j]).chunk_id.0 != id,
        decreases slots.len() - i,
    {
        if slots[i].chunk_id.as_i32() == id {
            return true;
        }
        i += 1;
    }
    false
}

/// Whether one of the draw groups has the id `id`.
fn find_draw_group(groups: &Vec<DrawGroup>, id: i32) -> (found: bool)
    ensures
        found == has_draw_group(groups@, id as int),
{
    let mut i: usize = 0;
    while i < groups.len()
        invariant
            i <= groups.len(),
            forall|j: int| 0 <= j < i ==> (#[trigger] groups@[j]).chunk_id.0 != id,
        decreases groups.len() - i,
    {
        if groups[i].chunk_id.as_i32() == id {
            return true;
        }
        i += 1;
    }
    false
}

/// Whether one of the sprites has the id `id`.
fn find_sprite(sprites: &Vec<Sprite>, id: i32) -> (found: bool)
    ensures
        found == has_sprite(sprites@, id as int),
{
    let mut i: usize = 0;
    while i < sprites.len()
        invariant
            i <= sprites.len(),
            forall|j: int| 0 <= j < i ==> (#[trigger] sprites@[j]).chunk_id.0 != id,
        decreases sprites.len() - i,
    {
        if sprites[i].chunk_id.as_i32() == id {
            return true;
        }
        i += 1;
    }
    false
}

/// The first sprite with the id `id`.
fn first_sprite(sprites: &Vec<Sprite>, id: IffChunkId) -> (r: Option<usize>)
    ensures
        match r {
            Some(i) => sprite_at(sprites@, id.0) == Some(i as int) && i < sprites@.len(),
            None => sprite_at(sprites@, id.0) is None,
        },
{
    let mut i: usize = 0;
    let ghost all = sprites@;
    assert(all.skip(0) =~= all);
    while i < sprites.len()
        invariant
            i <= sprites.len(),
            all == sprites@,
            sprite_at(all, id.0) == match sprite_at(all.skip(i as int), id.0) {
                Some(k) => Some(k + i),
                None => None,
            },
        decreases sprites.len() - i,
    {
        assert(all.skip(i as int).drop_first() =~= all.skip(i + 1));
        if sprites[i].chunk_id.as_i16() == id.as_i16() {
            return Some(i);
        }
        i += 1;
    }
    None
}

/// Checks what one object definition refers to.
fn check_definition(
    definition: &ObjectDefinition,
    slots: &Vec<Slot>,
    groups: &Vec<DrawGroup>,
    sprites: &Vec<Sprite>,
) -> (r: Result<(), Error>)
    ensures
        match r {
            Ok(_) => definition_defect(*definition, slots@, groups@, sprites@) is None,
            Err(e) => definition_defect(*definition, slots@, groups@, sprites@) == Some(e),
        },
{
    if definition.slot_chunk_id.as_i16() != 0 && !find_slot(
        slots,
        definition.slot_chunk_id.as_i32(),
    ) {
        return Err(Error::MissingSlot { object_id: definition.chunk_id.as_i16() });
    }
    if definition.subindex != -1 {
        let mut k: i32 = 0;
        while k < definition.numgraphics as i32
            invariant
                0 <= k,
                k <= definition.numgraphics || definition.numgraphics < 0,
                definition.subindex != -1,
                definition.slot_chunk_id.0 == 0 || has_slot(
                    slots@,
                    definition.slot_chunk_id.0 as int,
                ),
                forall|j: int|
                    0 <= j < k ==> #[trigger] has_draw_group(groups@, definition.basegraphic + j),
            decreases definition.numgraphics - k,
        {
            if !find_draw_group(groups, definition.basegraphic as i32 + k) {
                assert(!has_draw_group(groups@, definition.basegraphic + k));
                return Err(Error::MissingDrawGroup { object_id: definition.chunk_id.as_i16() });
            }
            k += 1;
        }
        let mut k: i32 = 0;
        while k < definition.numdynsprites as i32
            invariant
                0 <= k,
                k <= definition.numdynsprites || definition.numdynsprites < 0,
                definition.subindex != -1,
                definition.slot_chunk_id.0 == 0 || has_slot(
                    slots@,
                    definition.slot_chunk_id.0 as int,
                ),
                has_draw_groups(
                    groups@,
                    definition.basegraphic as int,
                    definition.numgraphics as int,
                ),
                forall|j: int|
                    0 <= j < k ==> #[trigger] has_sprite(sprites@, definition.dynspritebaseid + j),
            decreases definition.numdynsprites - k,
        {
            if !find_sprite(sprites, definition.dynspritebaseid as i32 + k) {
                assert(!has_sprite(sprites@, definition.dynspritebaseid + k));
                return Err(Error::MissingSprite { chunk_id: definition.chunk_id.as_i16() });
            }
            k += 1;
        }
    }
    Ok(())
}

/// Checks the items of one draw group.
fn check_group_items(group: &DrawGroup, sprites: &Vec<Sprite>) -> (r: Result<(), Error>)
    ensures
        match r {
            Ok(_) => lists_defect(
                *group,
                sprites@,
                group.draw_group_item_lists@.len() as int,
            ) is None,
            Err(e) => lists_defect(*group, sprites@, group.draw_group_item_lists@.len() as int)
                == Some(e),
        },
{
    let mut l: usize = 0;
    while l < group.draw_group_item_lists.len()
        invariant
            l <= group.draw_group_item_lists.len(),
            lists_defect(*group, sprites@, l as int) is None,
        decreases group.draw_group_item_lists.len() - l,
    {
        let list = &group.draw_group_item_lists[l];
        let mut i: usize = 0;
        while i < list.draw_group_items.len()
            invariant
                i <= list.draw_group_items.len(),
                l < group.draw_group_item_lists.len(),
                *list == group.draw_group_item_lists@[l as int],
                lists_defect(*group, sprites@, l as int) is None,
                items_defect(*list, group.chunk_id.0, sprites@, i as int) is None,
            decreases list.draw_group_items.len() - i,
        {
            let item = &list.draw_group_items[i];
            let defect = match first_sprite(sprites, item.sprite_chunk_id) {
                None => Some(Error::MissingSprite { chunk_id: group.chunk_id.as_i16() }),
                Some(s) => {
                    if sprites[s].sprite_frame_count > item.sprite_index.as_i32() {
                        None
                    } else {
                        Some(Error::MissingFrame { chunk_id: group.chunk_id.as_i16() })
                    }
                },
            };
            match defect {
                Some(e) => {
                    proof {
                        lemma_items_defect(
                            *list,
                            group.chunk_id.0,
                            sprites@,
                            i + 1,
                            list.draw_group_items@.len() as int,
                        );
                        lemma_lists_defect(
                            *group,
                            sprites@,
                            l + 1,
                            group.draw_group_item_lists@.len() as int,
                        );
                    }
                    return Err(e);
                },
                None => {},
            }
            i += 1;
        }
        l += 1;
    }
    Ok(())
}

impl IffDescription {
    /// Checks that everything a record of the description refers to is
    /// described: the slot record, the draw groups and the dynamic sprites
    /// of every object definition, and the sprite and the frame of every
    /// item of a draw group.
    pub fn check_references(&self) -> (r: Result<(), Error>)
        ensures
            match r {
                Ok(_) => references_defect(*self) is None,
                Err(e) => references_defect(*self) == Some(e),
            },
    {
        let definitions = &self.object_definitions.object_definitions;
        let groups = &self.draw_groups.draw_groups;
        let sprites = &self.sprites.sprites;
        let mut i: usize = 0;
        while i < definitions.len()
            invariant
                i <= definitions.len(),
                definitions@ == self.object_definitions.object_definitions@,
                groups@ == self.draw_groups.draw_groups@,
                sprites@ == self.sprites.sprites@,
                definitions_defect(*self, i as int) is None,
            decreases definitions.len() - i,
        {
            match check_definition(&definitions[i], &self.slots.slots, groups, sprites) {
                Ok(_) => {},
                Err(e) => {
                    proof {
                        lemma_definitions_defect(*self, i + 1, definitions@.len() as int);
                    }
                    return Err(e);
                },
            }
            i += 1;
        }
        let mut g: usize = 0;
        while g < groups.len()
            invariant
                g <= groups.len(),
                definitions@ == self.object_definitions.object_definitions@,
                groups@ == self.draw_groups.draw_groups@,
                sprites@ == self.sprites.sprites@,
                definitions_defect(*self, definitions@.len() as int) is None,
                groups_defect(groups@, sprites@, g as int) is None,
            decreases groups.len() - g,
        {
            match check_group_items(&groups[g], sprites) {
                Ok(_) => {},
                Err(e) => {
                    proof {
                        lemma_groups_defect(groups@, sprites@, g + 1, groups@.len() as int);
                    }
                    return Err(e);
                },
            }
            g += 1;
        }
        Ok(())
    }
}

} // verus!
