//! Bringing a description up to date with the bitmaps of its frames: the
//! bounds of the frames, their palettes, and where draw groups place them.

use crate::bitmap::{image_at, Bitmap, ChannelImage, ImageStore};
use crate::dgrp::{DrawGroup, DrawGroupItem, DrawGroupItemList};
use crate::error::{Error, PixelError};
use crate::iff::IffChunkId;
use crate::iff_description::IffDescription;
use crate::spr::{channel_path, Sprite, SpriteChannelType, SpriteFrame, SpriteType};
use crate::sprite::{
    blank, calculate_sprite_image_description, tight, SpriteBounds, SpriteImageDescription,
    SpriteOffsets,
};
use vstd::prelude::*;

verus! {

/// What is known of the frame whose alpha channel is the file `path`.
#[derive(Debug)]
pub struct FrameDescription {
    pub path: String,
    pub description: SpriteImageDescription,
}

/// The frame descriptions that an update can draw on, by the path of the
/// frame's alpha channel.
#[derive(Debug)]
pub struct DescriptionStore {
    pub descriptions: Vec<FrameDescription>,
}

/// The index of the first description stored under `path`.
pub open spec fn description_at(descriptions: Seq<FrameDescription>, path: Seq<char>) -> Option<
    int,
>
    decreases descriptions.len(),
{
    if descriptions.len() == 0 {
        None
    } else if descriptions[0].path@ == path {
        Some(0)
    } else {
        match description_at(descriptions.drop_first(), path) {
            Some(i) => Some(i + 1),
            None => None,
        }
    }
}

/// An index that was found is that of a description stored under the
/// path.
pub proof fn lemma_description_at(descriptions: Seq<FrameDescription>, path: Seq<char>)
    ensures
        description_at(descriptions, path) matches Some(i) ==> 0 <= i < descriptions.len(),
    decreases descriptions.len(),
{
    if descriptions.len() > 0 && descriptions[0].path@ != path {
        lemma_description_at(descriptions.drop_first(), path);
    }
}

impl DescriptionStore {
    /// The description stored under `path`, if there is one.
    pub fn find(&self, path: &str) -> (r: Option<SpriteImageDescription>)
        ensures
            r == match description_at(self.descriptions@, path@) {
                Some(i) => Some(self.descriptions@[i].description),
                None => None,
            },
    {
        let mut i: usize = 0;
        let ghost all = self.descriptions@;
        assert(all.skip(0) =~= all);
        while i < self.descriptions.len()
            invariant
                i <= self.descriptions.len(),
                all == self.descriptions@,
                description_at(all, path@) == match description_at(all.skip(i as int), path@) {
                    Some(k) => Some(k + i),
                    None => None,
                },
            decreases self.descriptions.len() - i,
        {
            assert(all.skip(i as int).drop_first() =~= all.skip(i + 1));
            if crate::bitmap::str_equal(self.descriptions[i].path.as_str(), path) {
                return Some(self.descriptions[i].description);
            }
            i += 1;
        }
        None
    }
}

/// The stored description of `frame`, which is looked up under the path of
/// the frame's alpha channel.
pub open spec fn stored_description(
    frame: SpriteFrame,
    sprite_id: i16,
    descriptions: Seq<FrameDescription>,
) -> Option<SpriteImageDescription> {
    match channel_path(frame, SpriteChannelType::Alpha, sprite_id) {
        Err(_) => None,
        Ok(path) => match description_at(descriptions, path) {
            Some(i) => Some(descriptions[i].description),
            None => None,
        },
    }
}

/// The bounds of a frame.
pub open spec fn bounds_of(frame: SpriteFrame) -> SpriteBounds {
    SpriteBounds {
        left: frame.bounds_left,
        top: frame.bounds_top,
        right: frame.bounds_right,
        bottom: frame.bounds_bottom,
    }
}

/// Why a frame cannot be brought up to date, if it cannot: it has no alpha
/// channel, or there is neither a stored description of it nor a bitmap of
/// its alpha channel, or the bitmap cannot be measured.
pub open spec fn position_defect(
    frame: SpriteFrame,
    sprite_id: i16,
    descriptions: Seq<FrameDescription>,
    alphas: Seq<ChannelImage>,
) -> Option<Error> {
    match channel_path(frame, SpriteChannelType::Alpha, sprite_id) {
        Err(e) => Some(e),
        Ok(path) => match description_at(descriptions, path) {
            Some(_) => None,
            None => match image_at(alphas, path) {
                None => Some(Error::MissingPixels { sprite_id }),
                Some(j) => {
                    let bitmap = alphas[j].bitmap;
                    if !bitmap.wf() {
                        Some(Error::Frame { sprite_id, frame: frame.index.0, cause: PixelError::PixelCount })
                    } else if !blank(bitmap) && (bitmap.width > i16::MAX || bitmap.height
                        > i16::MAX) {
                        Some(Error::Frame { sprite_id, frame: frame.index.0, cause: PixelError::Bounds })
                    } else {
                        None
                    }
                },
            },
        },
    }
}

/// Whether `after` is the frame `before` brought up to date, in a sprite
/// whose palette is `palette` when the frame's turn comes.
///
/// A frame with a stored description takes its palette, its transparent
/// colour and its bounds from the description. Any other frame takes the
/// palette of its sprite, and as its bounds the smallest rectangle that
/// holds what the bitmap of its alpha channel shows, or bounds of zero
/// where the bitmap shows nothing. Nothing else changes.
pub open spec fn frame_positioned(
    before: SpriteFrame,
    after: SpriteFrame,
    palette: IffChunkId,
    sprite_id: i16,
    descriptions: Seq<FrameDescription>,
    alphas: Seq<ChannelImage>,
) -> bool {
    match stored_description(before, sprite_id, descriptions) {
        Some(d) => after == (SpriteFrame {
            palette_chunk_id: d.palette_id,
            transparent_color_index: d.transparent_color_index,
            bounds_left: d.bounds.left,
            bounds_top: d.bounds.top,
            bounds_right: d.bounds.right,
            bounds_bottom: d.bounds.bottom,
            ..before
        }),
        None => {
            &&& channel_path(before, SpriteChannelType::Alpha, sprite_id) matches Ok(path)
            &&& image_at(alphas, path) matches Some(j)
            &&& after == (SpriteFrame {
                palette_chunk_id: palette,
                bounds_left: after.bounds_left,
                bounds_top: after.bounds_top,
                bounds_right: after.bounds_right,
                bounds_bottom: after.bounds_bottom,
                ..before
            })
            &&& if blank(alphas[j].bitmap) {
                bounds_of(after) == (SpriteBounds { left: 0, top: 0, right: 0, bottom: 0 })
            } else {
                tight(alphas[j].bitmap, bounds_of(after))
            }
        },
    }
}

/// The palette of `sprite` after the first `k` of its frames were brought
/// up to date: that of the last of them that has a stored description, or
/// the palette that the sprite had.
pub open spec fn palette_after(sprite: Sprite, descriptions: Seq<FrameDescription>, k: int)
    -> IffChunkId
    decreases k,
{
    if k <= 0 {
        sprite.palette_chunk_id
    } else {
        match stored_description(sprite.sprite_frames@[k - 1], sprite.chunk_id.0, descriptions) {
            Some(d) => d.palette_id,
            None => palette_after(sprite, descriptions, k - 1),
        }
    }
}

/// Whether the item shows the frame with the index `frame_index` of the
/// sprite `sprite_id`.
pub open spec fn item_shows(item: DrawGroupItem, sprite_id: i16, frame_index: i32) -> bool {
    item.sprite_chunk_id.0 == sprite_id && item.sprite_index.0 == frame_index
}

/// Where the item is placed by offsets `offsets`: a flipped item at the
/// flipped horizontal offset.
pub open spec fn placed_at(item: DrawGroupItem, offsets: SpriteOffsets) -> (i32, i32) {
    (
        if item.flags & 1 == 0 {
            offsets.x
        } else {
            offsets.x_flipped
        },
        offsets.y,
    )
}

/// Where the item is placed after the first `k` frames of `sprite` were
/// brought up to date, where it was placed at `start` before: at the
/// offsets of the last of those frames that it shows and that has a
/// stored description.
pub open spec fn placed_after_frames(
    item: DrawGroupItem,
    sprite: Sprite,
    descriptions: Seq<FrameDescription>,
    k: int,
    start: (i32, i32),
) -> (i32, i32)
    decreases k,
{
    if k <= 0 {
        start
    } else {
        let frame = sprite.sprite_frames@[k - 1];
        match stored_description(frame, sprite.chunk_id.0, descriptions) {
            Some(d) => if item_shows(item, sprite.chunk_id.0, frame.index.0) {
                placed_at(item, d.offsets)
            } else {
                placed_after_frames(item, sprite, descriptions, k - 1, start)
            },
            None => placed_after_frames(item, sprite, descriptions, k - 1, start),
        }
    }
}

/// Where the item is placed after the first `k` sprites were brought up to
/// date. Sprites in the legacy format place nothing.
pub open spec fn placed_after_sprites(
    item: DrawGroupItem,
    sprites: Seq<Sprite>,
    descriptions: Seq<FrameDescription>,
    k: int,
) -> (i32, i32)
    decreases k,
{
    if k <= 0 {
        (item.sprite_offset_x, item.sprite_offset_y)
    } else {
        let start = placed_after_sprites(item, sprites, descriptions, k - 1);
        if sprites[k - 1].sprite_type == SpriteType::Spr1 {
            start
        } else {
            placed_after_frames(
                item,
                sprites[k - 1],
                descriptions,
                sprites[k - 1].sprite_frames@.len() as int,
                start,
            )
        }
    }
}

/// The item `item` placed at `place`.
pub open spec fn item_at(item: DrawGroupItem, place: (i32, i32)) -> DrawGroupItem {
    DrawGroupItem { sprite_offset_x: place.0, sprite_offset_y: place.1, ..item }
}

/// Whether `after` are the draw groups `before` with the same lists and
/// items, each item where `place` puts the item that it was.
pub open spec fn groups_placed(
    before: Seq<DrawGroup>,
    after: Seq<DrawGroup>,
    place: spec_fn(DrawGroupItem) -> (i32, i32),
) -> bool {
    &&& after.len() == before.len()
    &&& forall|g: int|
        0 <= g < before.len() ==> group_placed(#[trigger] before[g], after[g], place)
}

/// The same for one draw group.
pub open spec fn group_placed(
    before: DrawGroup,
    after: DrawGroup,
    place: spec_fn(DrawGroupItem) -> (i32, i32),
) -> bool {
    &&& after == (DrawGroup { draw_group_item_lists: after.draw_group_item_lists, ..before })
    &&& after.draw_group_item_lists@.len() == before.draw_group_item_lists@.len()
    &&& forall|l: int|
        0 <= l < before.draw_group_item_lists@.len() ==> list_placed(
            #[trigger] before.draw_group_item_lists@[l],
            after.draw_group_item_lists@[l],
            place,
        )
}

/// The same for one item list.
pub open spec fn list_placed(
    before: DrawGroupItemList,
    after: DrawGroupItemList,
    place: spec_fn(DrawGroupItem) -> (i32, i32),
) -> bool {
    &&& after == (DrawGroupItemList { draw_group_items: after.draw_group_items, ..before })
    &&& after.draw_group_items@.len() == before.draw_group_items@.len()
    &&& forall|i: int|
        0 <= i < before.draw_group_items@.len() ==> after.draw_group_items@[i] == item_at(
            #[trigger] before.draw_group_items@[i],
            place(before.draw_group_items@[i]),
        )
}

/// Where an item stays that no frame places.
pub open spec fn place_of(item: DrawGroupItem) -> (i32, i32) {
    (item.sprite_offset_x, item.sprite_offset_y)
}

/// Places the items of a list that show the given frame.
fn place_list(
    list: &mut DrawGroupItemList,
    Ghost(origin): Ghost<DrawGroupItemList>,
    Ghost(place): Ghost<spec_fn(DrawGroupItem) -> (i32, i32)>,
    sprite_id: i16,
    frame_index: i32,
    offsets: &SpriteOffsets,
)
    requires
        list_placed(origin, *old(list), place),
    ensures
        list_placed(
            origin,
            *final(list),
            |item: DrawGroupItem|
                if item_shows(item, sprite_id, frame_index) {
                    placed_at(item, *offsets)
                } else {
                    place(item)
                },
        ),
{
    let ghost next = |item: DrawGroupItem|
        if item_shows(item, sprite_id, frame_index) {
            placed_at(item, *offsets)
        } else {
            place(item)
        };
    let mut i: usize = 0;
    while i < list.draw_group_items.len()
        invariant
            i <= list.draw_group_items.len(),
            *list == (DrawGroupItemList { draw_group_items: list.draw_group_items, ..origin }),
            list.draw_group_items@.len() == origin.draw_group_items@.len(),
            next == |item: DrawGroupItem|
                if item_shows(item, sprite_id, frame_index) {
                    placed_at(item, *offsets)
                } else {
                    place(item)
                },
            forall|k: int|
                0 <= k < i ==> list.draw_group_items@[k] == item_at(
                    #[trigger] origin.draw_group_items@[k],
                    next(origin.draw_group_items@[k]),
                ),
            forall|k: int|
                i <= k < origin.draw_group_items@.len() ==> list.draw_group_items@[k] == item_at(
                    #[trigger] origin.draw_group_items@[k],
                    place(origin.draw_group_items@[k]),
                ),
        decreases list.draw_group_items.len() - i,
    {
        let item = list.draw_group_items[i];
        let ghost first = origin.draw_group_items@[i as int];
        assert(item == item_at(first, place(first)));
        if item.sprite_chunk_id.as_i16() == sprite_id && item.sprite_index.as_i32()
            == frame_index {
            let x = if item.flags & 1 == 0 {
                offsets.x
            } else {
                offsets.x_flipped
            };
            list.draw_group_items[i] = DrawGroupItem {
                sprite_offset_x: x,
                sprite_offset_y: offsets.y,
                ..item
            };
        }
        i += 1;
    }
}

/// Places the items of a draw group that show the given frame.
fn place_group(
    group: &mut DrawGroup,
    Ghost(origin): Ghost<DrawGroup>,
    Ghost(place): Ghost<spec_fn(DrawGroupItem) -> (i32, i32)>,
    sprite_id: i16,
    frame_index: i32,
    offsets: &SpriteOffsets,
)
    requires
        group_placed(origin, *old(group), place),
    ensures
        group_placed(
            origin,
            *final(group),
            |item: DrawGroupItem|
                if item_shows(item, sprite_id, frame_index) {
                    placed_at(item, *offsets)
                } else {
                    place(item)
                },
        ),
{
    let ghost next = |item: DrawGroupItem|
        if item_shows(item, sprite_id, frame_index) {
            placed_at(item, *offsets)
        } else {
            place(item)
        };
    let mut l: usize = 0;
    while l < group.draw_group_item_lists.len()
        invariant
            l <= group.draw_group_item_lists.len(),
            *group == (DrawGroup {
                draw_group_item_lists: group.draw_group_item_lists,
                ..origin
            }),
            group.draw_group_item_lists@.len() == origin.draw_group_item_lists@.len(),
            next == |item: DrawGroupItem|
                if item_shows(item, sprite_id, frame_index) {
                    placed_at(item, *offsets)
                } else {
                    place(item)
                },
            forall|k: int|
                0 <= k < l ==> list_placed(
                    #[trigger] origin.draw_group_item_lists@[k],
                    group.draw_group_item_lists@[k],
                    next,
                ),
            forall|k: int|
                l <= k < origin.draw_group_item_lists@.len() ==> list_placed(
                    #[trigger] origin.draw_group_item_lists@[k],
                    group.draw_group_item_lists@[k],
                    place,
                ),
        decreases group.draw_group_item_lists.len() - l,
    {
        place_list(
            &mut group.draw_group_item_lists[l],
            Ghost(origin.draw_group_item_lists@[l as int]),
            Ghost(place),
            sprite_id,
            frame_index,
            offsets,
        );
        l += 1;
    }
}

/// Places the items of all draw groups that show the given frame.
fn place_groups(
    groups: &mut Vec<DrawGroup>,
    Ghost(origin): Ghost<Seq<DrawGroup>>,
    Ghost(place): Ghost<spec_fn(DrawGroupItem) -> (i32, i32)>,
    sprite_id: i16,
    frame_index: i32,
    offsets: &SpriteOffsets,
)
    requires
        groups_placed(origin, old(groups)@, place),
    ensures
        groups_placed(
            origin,
            final(groups)@,
            |item: DrawGroupItem|
                if item_shows(item, sprite_id, frame_index) {
                    placed_at(item, *offsets)
                } else {
                    place(item)
                },
        ),
{
    let ghost next = |item: DrawGroupItem|
        if item_shows(item, sprite_id, frame_index) {
            placed_at(item, *offsets)
        } else {
            place(item)
        };
    let mut g: usize = 0;
    while g < groups.len()
        invariant
            g <= groups.len(),
            groups@.len() == origin.len(),
            next == |item: DrawGroupItem|
                if item_shows(item, sprite_id, frame_index) {
                    placed_at(item, *offsets)
                } else {
                    place(item)
                },
            forall|k: int| 0 <= k < g ==> group_placed(#[trigger] origin[k], groups@[k], next),
            forall|k: int|
                g <= k < origin.len() ==> group_placed(#[trigger] origin[k], groups@[k], place),
        decreases groups.len() - g,
    {
        place_group(
            &mut groups[g],
            Ghost(origin[g as int]),
            Ghost(place),
            sprite_id,
            frame_index,
            offsets,
        );
        g += 1;
    }
}

/// Brings one frame up to date, and gives the stored description of the
/// frame if there is one.
fn position_frame(
    frame: &mut SpriteFrame,
    palette: IffChunkId,
    sprite_id: IffChunkId,
    descriptions: &DescriptionStore,
    alphas: &ImageStore,
) -> (r: Result<Option<SpriteImageDescription>, Error>)
    ensures
        match r {
            Ok(found) => position_defect(
                *old(frame),
                sprite_id.0,
                descriptions.descriptions@,
                alphas.images@,
            ) is None && found == stored_description(
                *old(frame),
                sprite_id.0,
                descriptions.descriptions@,
            ) && frame_positioned(
                *old(frame),
                *final(frame),
                palette,
                sprite_id.0,
                descriptions.descriptions@,
                alphas.images@,
            ),
            Err(e) => position_defect(
                *old(frame),
                sprite_id.0,
                descriptions.descriptions@,
                alphas.images@,
            ) == Some(e) && *final(frame) == (SpriteFrame {
                palette_chunk_id: palette,
                ..*old(frame)
            }),
        },
{
    frame.palette_chunk_id = palette;
    let found = match frame.sprite_channel_file_path_relative(SpriteChannelType::Alpha, sprite_id) {
        Err(e) => {
            return Err(e);
        },
        Ok(path) => {
            match descriptions.find(path) {
                Some(d) => Ok(d),
                None => match alphas.find(path) {
                    None => {
                        return Err(Error::MissingPixels { sprite_id: sprite_id.as_i16() });
                    },
                    Some(bitmap) => {
                        proof {
                            crate::bitmap::lemma_image_at(alphas.images@, path@);
                        }
                        match calculate_sprite_image_description(
                            bitmap,
                            frame.zoom_level,
                            palette,
                            frame.transparent_color_index,
                        ) {
                            Ok(measured) => Err(measured),
                            Err(cause) => {
                                return Err(
                                    Error::Frame {
                                        sprite_id: sprite_id.as_i16(),
                                        frame: frame.index.as_i32(),
                                        cause,
                                    },
                                );
                            },
                        }
                    },
                },
            }
        },
    };
    match found {
        Ok(d) => {
            frame.palette_chunk_id = d.palette_id;
            frame.transparent_color_index = d.transparent_color_index;
            frame.bounds_left = d.bounds.left;
            frame.bounds_top = d.bounds.top;
            frame.bounds_right = d.bounds.right;
            frame.bounds_bottom = d.bounds.bottom;
            Ok(Some(d))
        },
        Err(measured) => {
            frame.bounds_left = measured.bounds.left;
            frame.bounds_top = measured.bounds.top;
            frame.bounds_right = measured.bounds.right;
            frame.bounds_bottom = measured.bounds.bottom;
            Ok(None)
        },
    }
}

/// The defect of the first of the first `k` frames of `sprite` that has
/// one.
pub open spec fn frames_position_defect(
    sprite: Sprite,
    descriptions: Seq<FrameDescription>,
    alphas: Seq<ChannelImage>,
    k: int,
) -> Option<Error>
    decreases k,
{
    if k <= 0 {
        None
    } else {
        match frames_position_defect(sprite, descriptions, alphas, k - 1) {
            Some(e) => Some(e),
            None => position_defect(
                sprite.sprite_frames@[k - 1],
                sprite.chunk_id.0,
                descriptions,
                alphas,
            ),
        }
    }
}

/// The defect of the first frame that has one, among the frames of those
/// of the first `k` sprites that are in the modern format.
pub open spec fn sprites_position_defect(
    sprites: Seq<Sprite>,
    descriptions: Seq<FrameDescription>,
    alphas: Seq<ChannelImage>,
    k: int,
) -> Option<Error>
    decreases k,
{
    if k <= 0 {
        None
    } else {
        match sprites_position_defect(sprites, descriptions, alphas, k - 1) {
            Some(e) => Some(e),
            None => if sprites[k - 1].sprite_type == SpriteType::Spr1 {
                None
            } else {
                frames_position_defect(
                    sprites[k - 1],
                    descriptions,
                    alphas,
                    sprites[k - 1].sprite_frames@.len() as int,
                )
            },
        }
    }
}

/// Once a frame has a defect, frames that follow do not change which
/// defect comes first.
pub proof fn lemma_frames_position_defect(
    sprite: Sprite,
    descriptions: Seq<FrameDescription>,
    alphas: Seq<ChannelImage>,
    k: int,
    n: int,
)
    requires
        0 <= k <= n,
        frames_position_defect(sprite, descriptions, alphas, k) is Some,
    ensures
        frames_position_defect(sprite, descriptions, alphas, n) == frames_position_defect(
            sprite,
            descriptions,
            alphas,
            k,
        ),
    decreases n - k,
{
    if k < n {
        lemma_frames_position_defect(sprite, descriptions, alphas, k, n - 1);
    }
}

/// The same for the sprites.
pub proof fn lemma_sprites_position_defect(
    sprites: Seq<Sprite>,
    descriptions: Seq<FrameDescription>,
    alphas: Seq<ChannelImage>,
    k: int,
    n: int,
)
    requires
        0 <= k <= n,
        sprites_position_defect(sprites, descriptions, alphas, k) is Some,
    ensures
        sprites_position_defect(sprites, descriptions, alphas, n) == sprites_position_defect(
            sprites,
            descriptions,
            alphas,
            k,
        ),
    decreases n - k,
{
    if k < n {
        lemma_sprites_position_defect(sprites, descriptions, alphas, k, n - 1);
    }
}

/// Whether `after` is the sprite `before`, in the modern format, with
/// every frame brought up to date in turn, and with the palette that the
/// last stored description gave it.
pub open spec fn sprite_positioned(
    before: Sprite,
    after: Sprite,
    descriptions: Seq<FrameDescription>,
    alphas: Seq<ChannelImage>,
) -> bool {
    &&& after == (Sprite {
        palette_chunk_id: palette_after(
            before,
            descriptions,
            before.sprite_frames@.len() as int,
        ),
        sprite_frames: after.sprite_frames,
        ..before
    })
    &&& after.sprite_frames@.len() == before.sprite_frames@.len()
    &&& forall|f: int|
        0 <= f < before.sprite_frames@.len() ==> frame_positioned(
            #[trigger] before.sprite_frames@[f],
            after.sprite_frames@[f],
            palette_after(before, descriptions, f),
            before.chunk_id.0,
            descriptions,
            alphas,
        )
}

/// Whether `after` is the sprite `before` as an update leaves it that
/// stopped at frame `k`, the first one that cannot be brought up to date:
/// the frames before that one are up to date, that one has taken the
/// palette of the sprite, and the frames after it are as they were.
pub open spec fn sprite_positioned_to(
    before: Sprite,
    after: Sprite,
    descriptions: Seq<FrameDescription>,
    alphas: Seq<ChannelImage>,
    k: int,
) -> bool {
    &&& 0 <= k < before.sprite_frames@.len()
    &&& frames_position_defect(before, descriptions, alphas, k) is None
    &&& position_defect(before.sprite_frames@[k], before.chunk_id.0, descriptions, alphas) is Some
    &&& after == (Sprite {
        palette_chunk_id: palette_after(before, descriptions, k),
        sprite_frames: after.sprite_frames,
        ..before
    })
    &&& after.sprite_frames@.len() == before.sprite_frames@.len()
    &&& forall|f: int|
        0 <= f < k ==> frame_positioned(
            #[trigger] before.sprite_frames@[f],
            after.sprite_frames@[f],
            palette_after(before, descriptions, f),
            before.chunk_id.0,
            descriptions,
            alphas,
        )
    &&& after.sprite_frames@[k] == (SpriteFrame {
        palette_chunk_id: palette_after(before, descriptions, k),
        ..before.sprite_frames@[k]
    })
    &&& forall|f: int|
        k < f < before.sprite_frames@.len() ==> #[trigger] after.sprite_frames@[f]
            == before.sprite_frames@[f]
}

/// Draw groups that are placed by one rule are placed by any rule that
/// puts every item at the same place.
pub proof fn lemma_groups_placed(
    before: Seq<DrawGroup>,
    after: Seq<DrawGroup>,
    place: spec_fn(DrawGroupItem) -> (i32, i32),
    other: spec_fn(DrawGroupItem) -> (i32, i32),
)
    requires
        groups_placed(before, after, place),
        forall|item: DrawGroupItem| #[trigger] place(item) == other(item),
    ensures
        groups_placed(before, after, other),
{
    assert forall|g: int| 0 <= g < before.len() implies group_placed(
        #[trigger] before[g],
        after[g],
        other,
    ) by {
        assert(group_placed(before[g], after[g], place));
        let b = before[g];
        let a = after[g];
        assert forall|l: int| 0 <= l < b.draw_group_item_lists@.len() implies list_placed(
            #[trigger] b.draw_group_item_lists@[l],
            a.draw_group_item_lists@[l],
            other,
        ) by {
            assert(list_placed(b.draw_group_item_lists@[l], a.draw_group_item_lists@[l], place));
        }
    }
}

/// Draw groups are where their own places put them.
pub proof fn lemma_groups_in_place(groups: Seq<DrawGroup>)
    ensures
        groups_placed(groups, groups, |item: DrawGroupItem| place_of(item)),
{
}

/// Brings the frames of one sprite in the modern format up to date, and
/// places the items that show them.
fn position_sprite(
    sprite: &mut Sprite,
    groups: &mut Vec<DrawGroup>,
    Ghost(origin): Ghost<Seq<DrawGroup>>,
    Ghost(place): Ghost<spec_fn(DrawGroupItem) -> (i32, i32)>,
    descriptions: &DescriptionStore,
    alphas: &ImageStore,
) -> (r: Result<(), Error>)
    requires
        groups_placed(origin, old(groups)@, place),
    ensures
        match r {
            Ok(_) => frames_position_defect(
                *old(sprite),
                descriptions.descriptions@,
                alphas.images@,
                old(sprite).sprite_frames@.len() as int,
            ) is None && sprite_positioned(
                *old(sprite),
                *final(sprite),
                descriptions.descriptions@,
                alphas.images@,
            ) && groups_placed(
                origin,
                final(groups)@,
                |item: DrawGroupItem|
                    placed_after_frames(
                        item,
                        *old(sprite),
                        descriptions.descriptions@,
                        old(sprite).sprite_frames@.len() as int,
                        place(item),
                    ),
            ),
            Err(e) => frames_position_defect(
                *old(sprite),
                descriptions.descriptions@,
                alphas.images@,
                old(sprite).sprite_frames@.len() as int,
            ) == Some(e) && exists|k: int|
                {
                    &&& #[trigger] sprite_positioned_to(
                        *old(sprite),
                        *final(sprite),
                        descriptions.descriptions@,
                        alphas.images@,
                        k,
                    )
                    &&& groups_placed(
                        origin,
                        final(groups)@,
                        |item: DrawGroupItem|
                            placed_after_frames(
                                item,
                                *old(sprite),
                                descriptions.descriptions@,
                                k,
                                place(item),
                            ),
                    )
                },
        },
{
    let sprite_id = sprite.chunk_id;
    let ghost first = *sprite;
    let ghost stored = descriptions.descriptions@;
    let ghost now = place;
    let mut f: usize = 0;
    while f < sprite.sprite_frames.len()
        invariant
            f <= sprite.sprite_frames.len(),
            first == *old(sprite),
            stored == descriptions.descriptions@,
            sprite_id == first.chunk_id,
            *sprite == (Sprite {
                palette_chunk_id: palette_after(first, stored, f as int),
                sprite_frames: sprite.sprite_frames,
                ..first
            }),
            sprite.sprite_frames@.len() == first.sprite_frames@.len(),
            forall|k: int|
                0 <= k < f ==> frame_positioned(
                    #[trigger] first.sprite_frames@[k],
                    sprite.sprite_frames@[k],
                    palette_after(first, stored, k),
                    first.chunk_id.0,
                    stored,
                    alphas.images@,
                ),
            forall|k: int|
                f <= k < first.sprite_frames@.len() ==> #[trigger] sprite.sprite_frames@[k]
                    == first.sprite_frames@[k],
            frames_position_defect(first, stored, alphas.images@, f as int) is None,
            groups_placed(origin, groups@, now),
            forall|item: DrawGroupItem|
                #[trigger] now(item) == placed_after_frames(
                    item,
                    first,
                    stored,
                    f as int,
                    place(item),
                ),
        decreases sprite.sprite_frames.len() - f,
    {
        let palette = sprite.palette_chunk_id;
        let frame_index = sprite.sprite_frames[f].index.as_i32();
        match position_frame(&mut sprite.sprite_frames[f], palette, sprite_id, descriptions, alphas) {
            Err(e) => {
                proof {
                    lemma_frames_position_defect(
                        first,
                        stored,
                        alphas.images@,
                        f + 1,
                        first.sprite_frames@.len() as int,
                    );
                    lemma_groups_placed(
                        origin,
                        groups@,
                        now,
                        |item: DrawGroupItem|
                            placed_after_frames(item, first, stored, f as int, place(item)),
                    );
                    assert(sprite_positioned_to(
                        first,
                        *sprite,
                        stored,
                        alphas.images@,
                        f as int,
                    ));
                }
                return Err(e);
            },
            Ok(None) => {},
            Ok(Some(d)) => {
                sprite.palette_chunk_id = d.palette_id;
                let ghost before = now;
                place_groups(
                    groups,
                    Ghost(origin),
                    Ghost(before),
                    sprite_id.as_i16(),
                    frame_index,
                    &d.offsets,
                );
                proof {
                    now = |item: DrawGroupItem|
                        if item_shows(item, sprite_id.0, frame_index) {
                            placed_at(item, d.offsets)
                        } else {
                            before(item)
                        };
                }
            },
        }
        f += 1;
    }
    proof {
        lemma_groups_placed(
            origin,
            groups@,
            now,
            |item: DrawGroupItem|
                placed_after_frames(
                    item,
                    first,
                    stored,
                    first.sprite_frames@.len() as int,
                    place(item),
                ),
        );
    }
    Ok(())
}

impl IffDescription {
    /// Whether `after` is this description brought up to date with the
    /// stored frame descriptions and the alpha bitmaps: every frame of
    /// every sprite in the modern format, in turn, and every item of the
    /// draw groups where the last frame that it shows, and that has a
    /// stored description, places it. Nothing else is changed.
    pub open spec fn positioned(
        self,
        after: IffDescription,
        descriptions: Seq<FrameDescription>,
        alphas: Seq<ChannelImage>,
    ) -> bool {
        &&& after == (IffDescription {
            sprites: after.sprites,
            draw_groups: after.draw_groups,
            ..self
        })
        &&& after.sprites.sprites@.len() == self.sprites.sprites@.len()
        &&& forall|s: int|
            0 <= s < self.sprites.sprites@.len() ==> if (
            #[trigger] self.sprites.sprites@[s]).sprite_type == SpriteType::Spr1 {
                after.sprites.sprites@[s] == self.sprites.sprites@[s]
            } else {
                sprite_positioned(
                    self.sprites.sprites@[s],
                    after.sprites.sprites@[s],
                    descriptions,
                    alphas,
                )
            }
        &&& groups_placed(
            self.draw_groups.draw_groups@,
            after.draw_groups.draw_groups@,
            |item: DrawGroupItem|
                placed_after_sprites(
                    item,
                    self.sprites.sprites@,
                    descriptions,
                    self.sprites.sprites@.len() as int,
                ),
        )
    }

    /// Whether `after` is this description as an update leaves it that
    /// stopped in the sprite `s`, at its frame `k`, the first frame that
    /// cannot be brought up to date: the sprites before that one are up to
    /// date, that one is as far as its frame `k`, the sprites after it
    /// are as they were, and every item of the draw groups is where the
    /// frames before the one that stopped the update place it.
    pub open spec fn positioned_to(
        self,
        after: IffDescription,
        descriptions: Seq<FrameDescription>,
        alphas: Seq<ChannelImage>,
        s: int,
        k: int,
    ) -> bool {
        &&& after == (IffDescription {
            sprites: after.sprites,
            draw_groups: after.draw_groups,
            ..self
        })
        &&& after.sprites.sprites@.len() == self.sprites.sprites@.len()
        &&& 0 <= s < self.sprites.sprites@.len()
        &&& self.sprites.sprites@[s].sprite_type == SpriteType::Spr2
        &&& sprites_position_defect(self.sprites.sprites@, descriptions, alphas, s) is None
        &&& forall|i: int|
            0 <= i < s ==> if (#[trigger] self.sprites.sprites@[i]).sprite_type
                == SpriteType::Spr1 {
                after.sprites.sprites@[i] == self.sprites.sprites@[i]
            } else {
                sprite_positioned(
                    self.sprites.sprites@[i],
                    after.sprites.sprites@[i],
                    descriptions,
                    alphas,
                )
            }
        &&& sprite_positioned_to(
            self.sprites.sprites@[s],
            after.sprites.sprites@[s],
            descriptions,
            alphas,
            k,
        )
        &&& forall|i: int|
            s < i < self.sprites.sprites@.len() ==> #[trigger] after.sprites.sprites@[i]
                == self.sprites.sprites@[i]
        &&& groups_placed(
            self.draw_groups.draw_groups@,
            after.draw_groups.draw_groups@,
            |item: DrawGroupItem|
                placed_after_frames(
                    item,
                    self.sprites.sprites@[s],
                    descriptions,
                    k,
                    placed_after_sprites(item, self.sprites.sprites@, descriptions, s),
                ),
        )
    }

    /// Brings the description up to date with the bitmaps of its frames.
    ///
    /// `descriptions` holds what is stored of frames, by the path of the
    /// alpha channel, and `alpha_images` the bitmaps of the alpha channels
    /// of the frames of which nothing is stored. The sprites in the modern
    /// format are gone through in order, and their frames in order. A
    /// frame first takes the palette of its sprite. With a stored
    /// description, the sprite and the frame take its palette, the frame
    /// its transparent colour and its bounds, and every item of a draw
    /// group that shows the frame is placed at its offsets, a flipped item
    /// at the flipped one. Without, the frame takes as its bounds those of
    /// what its alpha bitmap shows. The first frame that cannot be brought
    /// up to date ends the update: what came before it stays changed, the
    /// frame itself has taken the palette of its sprite, and nothing after
    /// it is changed.
    pub fn update_sprite_positions(
        &mut self,
        descriptions: &DescriptionStore,
        alpha_images: &ImageStore,
    ) -> (r: Result<(), Error>)
        ensures
            match r {
                Ok(_) => sprites_position_defect(
                    old(self).sprites.sprites@,
                    descriptions.descriptions@,
                    alpha_images.images@,
                    old(self).sprites.sprites@.len() as int,
                ) is None && old(self).positioned(
                    *final(self),
                    descriptions.descriptions@,
                    alpha_images.images@,
                ),
                Err(e) => sprites_position_defect(
                    old(self).sprites.sprites@,
                    descriptions.descriptions@,
                    alpha_images.images@,
                    old(self).sprites.sprites@.len() as int,
                ) == Some(e) && exists|s: int, k: int| #[trigger]
                    old(self).positioned_to(
                        *final(self),
                        descriptions.descriptions@,
                        alpha_images.images@,
                        s,
                        k,
                    ),
            },
    {
        let ghost first = *self;
        let ghost stored = descriptions.descriptions@;
        let ghost origin = self.draw_groups.draw_groups@;
        let ghost now = |item: DrawGroupItem| place_of(item);
        proof {
            lemma_groups_in_place(origin);
        }
        let mut s: usize = 0;
        while s < self.sprites.sprites.len()
            invariant
                s <= self.sprites.sprites.len(),
                first == *old(self),
                stored == descriptions.descriptions@,
                origin == first.draw_groups.draw_groups@,
                *self == (IffDescription {
                    sprites: self.sprites,
                    draw_groups: self.draw_groups,
                    ..first
                }),
                self.sprites.sprites@.len() == first.sprites.sprites@.len(),
                forall|k: int|
                    0 <= k < s ==> if (#[trigger] first.sprites.sprites@[k]).sprite_type
                        == SpriteType::Spr1 {
                        self.sprites.sprites@[k] == first.sprites.sprites@[k]
                    } else {
                        sprite_positioned(
                            first.sprites.sprites@[k],
                            self.sprites.sprites@[k],
                            stored,
                            alpha_images.images@,
                        )
                    },
                forall|k: int|
                    s <= k < first.sprites.sprites@.len() ==> #[trigger] self.sprites.sprites@[k]
                        == first.sprites.sprites@[k],
                sprites_position_defect(
                    first.sprites.sprites@,
                    stored,
                    alpha_images.images@,
                    s as int,
                ) is None,
                groups_placed(origin, self.draw_groups.draw_groups@, now),
                forall|item: DrawGroupItem|
                    #[trigger] now(item) == placed_after_sprites(
                        item,
                        first.sprites.sprites@,
                        stored,
                        s as int,
                    ),
            decreases self.sprites.sprites.len() - s,
        {
            let modern = match self.sprites.sprites[s].sprite_type {
                SpriteType::Spr1 => false,
                SpriteType::Spr2 => true,
            };
            if modern {
                let ghost before = now;
                let ghost sprite = self.sprites.sprites@[s as int];
                match position_sprite(
                    &mut self.sprites.sprites[s],
                    &mut self.draw_groups.draw_groups,
                    Ghost(origin),
                    Ghost(before),
                    descriptions,
                    alpha_images,
                ) {
                    Ok(_) => {},
                    Err(e) => {
                        proof {
                            lemma_sprites_position_defect(
                                first.sprites.sprites@,
                                stored,
                                alpha_images.images@,
                                s + 1,
                                first.sprites.sprites@.len() as int,
                            );
                            let groups = self.draw_groups.draw_groups@;
                            let k = choose|k: int|
                                {
                                    &&& #[trigger] sprite_positioned_to(
                                        sprite,
                                        self.sprites.sprites@[s as int],
                                        stored,
                                        alpha_images.images@,
                                        k,
                                    )
                                    &&& groups_placed(
                                        origin,
                                        groups,
                                        |item: DrawGroupItem|
                                            placed_after_frames(
                                                item,
                                                sprite,
                                                stored,
                                                k,
                                                before(item),
                                            ),
                                    )
                                };
                            lemma_groups_placed(
                                origin,
                                groups,
                                |item: DrawGroupItem|
                                    placed_after_frames(item, sprite, stored, k, before(item)),
                                |item: DrawGroupItem|
                                    placed_after_frames(
                                        item,
                                        first.sprites.sprites@[s as int],
                                        stored,
                                        k,
                                        placed_after_sprites(
                                            item,
                                            first.sprites.sprites@,
                                            stored,
                                            s as int,
                                        ),
                                    ),
                            );
                            assert(first.positioned_to(
                                *self,
                                stored,
                                alpha_images.images@,
                                s as int,
                                k,
                            ));
                        }
                        return Err(e);
                    },
                }
                proof {
                    now = |item: DrawGroupItem|
                        placed_after_frames(
                            item,
                            sprite,
                            stored,
                            sprite.sprite_frames@.len() as int,
                            before(item),
                        );
                }
            }
            s += 1;
        }
        proof {
            lemma_groups_placed(
                origin,
                self.draw_groups.draw_groups@,
                now,
                |item: DrawGroupItem|
                    placed_after_sprites(
                        item,
                        first.sprites.sprites@,
                        stored,
                        first.sprites.sprites@.len() as int,
                    ),
            );
        }
        Ok(())
    }
}

} // verus!
