//! Draw groups: which frames of which sprites make up the picture of an
//! object, for each direction and scale.

use crate::bytes::{le_i32, le_u16, le_u32, push_i32_le, push_u16_le, push_u32_le};
use crate::error::Error;
use crate::iff::{new_chunk, ChunkModel, IffChunk, IffChunkId, TAG_DGRP};
use crate::spr::SpriteIndex;
use crate::sprite::{Rotation, ZoomLevel};
use vstd::prelude::*;
use vstd::utf8::encode_utf8;

verus! {

/// The version of the draw group layout that is written.
pub const DGRP_HEADER_VERSION: u16 = 20004;

/// Bytes of one draw group item.
pub const DGRP_ITEM_SIZE: usize = 32;

/// One frame in a picture. The three object offsets are single-precision
/// numbers, held as their bit patterns.
#[derive(Copy, Clone, Debug)]
pub struct DrawGroupItem {
    pub sprite_chunk_id: IffChunkId,
    pub sprite_index: SpriteIndex,
    pub sprite_offset_x: i32,
    pub sprite_offset_y: i32,
    pub object_offset_x: u32,
    pub object_offset_y: u32,
    pub object_offset_z: u32,
    pub flags: u32,
}

/// The frames of the picture for one direction and scale. The direction
/// is held together with the direction flags that it was read from.
#[derive(Debug)]
pub struct DrawGroupItemList {
    pub rotation: (Rotation, u32),
    pub zoom_level: ZoomLevel,
    pub draw_group_items: Vec<DrawGroupItem>,
}

/// The pictures of one object.
#[derive(Debug)]
pub struct DrawGroup {
    pub chunk_label: String,
    pub chunk_id: IffChunkId,
    pub draw_group_item_lists: Vec<DrawGroupItemList>,
}

/// The direction that the direction flags `dirflags` stand for.
pub open spec fn rotation_of_flags(dirflags: u8) -> Option<Rotation> {
    if dirflags == 1 || dirflags == 2 {
        Some(Rotation::SouthEast)
    } else if dirflags == 4 || dirflags == 8 {
        Some(Rotation::NorthEast)
    } else if dirflags == 16 || dirflags == 32 {
        Some(Rotation::NorthWest)
    } else if dirflags == 64 || dirflags == 128 {
        Some(Rotation::SouthWest)
    } else {
        None
    }
}

/// Reads the direction of an item list from its direction flags: exactly
/// one of the eight bits must be set, and two neighbouring bits stand for
/// one direction.
pub fn deserialize_draw_group_rotation(rotation: u8) -> (r: Option<(Rotation, u32)>)
    ensures
        r == match rotation_of_flags(rotation) {
            Some(direction) => Some((direction, rotation as u32)),
            None => None,
        },
{
    match rotation {
        1 | 2 => Some((Rotation::SouthEast, rotation as u32)),
        4 | 8 => Some((Rotation::NorthEast, rotation as u32)),
        16 | 32 => Some((Rotation::NorthWest, rotation as u32)),
        64 | 128 => Some((Rotation::SouthWest, rotation as u32)),
        _ => None,
    }
}

/// The direction flags that are written for an item list.
pub fn serialize_draw_group_rotation(rotation: &(Rotation, u32)) -> (flags: u32)
    ensures
        flags == rotation.1,
{
    rotation.1
}

impl ZoomLevel {
    /// The number that a draw group holds for the scale.
    pub open spec fn spec_draw_group_code(self) -> u32 {
        match self {
            ZoomLevel::Zero => 1,
            ZoomLevel::One => 2,
            ZoomLevel::Two => 3,
        }
    }
}

/// Reads the scale of an item list from its number.
pub fn deserialize_draw_group_zoom_level(code: u32) -> (r: Option<ZoomLevel>)
    ensures
        match r {
            Some(zoom_level) => zoom_level.spec_draw_group_code() == code,
            None => code < 1 || code > 3,
        },
{
    match code {
        1 => Some(ZoomLevel::Zero),
        2 => Some(ZoomLevel::One),
        3 => Some(ZoomLevel::Two),
        _ => None,
    }
}

/// The number that a draw group holds for the scale.
pub fn serialize_draw_group_zoom_level(zoom_level: &ZoomLevel) -> (code: u32)
    ensures
        code == zoom_level.spec_draw_group_code(),
{
    match zoom_level {
        ZoomLevel::Zero => 1,
        ZoomLevel::One => 2,
        ZoomLevel::Two => 3,
    }
}

impl DrawGroupItem {
    /// The 32 bytes of the item. On the wire the height offset and the
    /// flags stand before the two ground offsets.
    pub open spec fn bytes(self) -> Seq<u8> {
        le_i32(self.sprite_chunk_id.0 as i32) + le_i32(self.sprite_index.0) + le_i32(
            self.sprite_offset_x,
        ) + le_i32(self.sprite_offset_y) + le_u32(self.object_offset_z) + le_u32(self.flags)
            + le_u32(self.object_offset_x) + le_u32(self.object_offset_y)
    }

    /// Appends the 32 bytes of the item.
    pub fn write(&self, out: &mut Vec<u8>)
        ensures
            final(out)@ == old(out)@ + self.bytes(),
            self.bytes().len() == 32,
    {
        push_i32_le(out, self.sprite_chunk_id.as_i32());
        push_i32_le(out, self.sprite_index.as_i32());
        push_i32_le(out, self.sprite_offset_x);
        push_i32_le(out, self.sprite_offset_y);
        push_u32_le(out, self.object_offset_z);
        push_u32_le(out, self.flags);
        push_u32_le(out, self.object_offset_x);
        push_u32_le(out, self.object_offset_y);
        assert(out@ =~= old(out)@ + self.bytes());
    }
}

/// The items one after the other.
pub open spec fn items_bytes(items: Seq<DrawGroupItem>) -> Seq<u8>
    decreases items.len(),
{
    if items.len() == 0 {
        Seq::empty()
    } else {
        items_bytes(items.drop_last()) + items.last().bytes()
    }
}

impl DrawGroupItemList {
    /// The item list on the wire: the direction flags, the number of the
    /// scale, the number of items, and the items.
    pub open spec fn bytes(self) -> Seq<u8> {
        le_u32(self.rotation.1) + le_u32(self.zoom_level.spec_draw_group_code()) + le_u32(
            self.draw_group_items@.len() as u32,
        ) + items_bytes(self.draw_group_items@)
    }

    /// Appends the item list.
    pub fn write(&self, out: &mut Vec<u8>)
        requires
            self.draw_group_items@.len() <= u32::MAX,
        ensures
            final(out)@ == old(out)@ + self.bytes(),
    {
        push_u32_le(out, self.rotation.1);
        push_u32_le(out, serialize_draw_group_zoom_level(&self.zoom_level));
        push_u32_le(out, self.draw_group_items.len() as u32);
        let ghost head = out@;
        let ghost all = self.draw_group_items@;
        let mut i: usize = 0;
        assert(all.take(0) =~= Seq::<DrawGroupItem>::empty());
        assert(out@ =~= head + items_bytes(all.take(0)));
        while i < self.draw_group_items.len()
            invariant
                i <= self.draw_group_items.len(),
                all == self.draw_group_items@,
                out@ == head + items_bytes(all.take(i as int)),
            decreases self.draw_group_items.len() - i,
        {
            self.draw_group_items[i].write(out);
            proof {
                assert(all.take(i + 1).drop_last() =~= all.take(i as int));
                assert(all.take(i + 1).last() == all[i as int]);
                assert(out@ =~= head + items_bytes(all.take(i + 1)));
            }
            i += 1;
        }
        assert(all.take(i as int) =~= all);
        assert(out@ =~= old(out)@ + self.bytes());
    }
}

/// The item lists one after the other.
pub open spec fn lists_bytes(lists: Seq<DrawGroupItemList>) -> Seq<u8>
    decreases lists.len(),
{
    if lists.len() == 0 {
        Seq::empty()
    } else {
        lists_bytes(lists.drop_last()) + lists.last().bytes()
    }
}

/// Whether every list has a number of items that fits its count field.
pub open spec fn lists_fit(lists: Seq<DrawGroupItemList>) -> bool {
    forall|i: int| 0 <= i < lists.len() ==> (#[trigger] lists[i]).draw_group_items@.len()
        <= u32::MAX
}

/// The payload of a draw group: the version, the number of item lists, and
/// the item lists.
pub open spec fn dgrp_payload(lists: Seq<DrawGroupItemList>) -> Seq<u8> {
    le_u16(DGRP_HEADER_VERSION) + le_u32(lists.len() as u32) + lists_bytes(lists)
}

/// The draw group chunk of `group`, or why there is none.
pub open spec fn dgrp_chunk(group: DrawGroup) -> Result<ChunkModel, Error> {
    if group.draw_group_item_lists@.len() > u32::MAX || !lists_fit(group.draw_group_item_lists@) {
        Err(Error::TooLarge { chunk_id: group.chunk_id.0 })
    } else {
        new_chunk(
            TAG_DGRP@,
            group.chunk_id.0,
            encode_utf8(group.chunk_label@),
            dgrp_payload(group.draw_group_item_lists@),
        )
    }
}

impl DrawGroup {
    /// Whether every count of the draw group fits its field.
    fn fits(&self) -> (ok: bool)
        ensures
            ok == (self.draw_group_item_lists@.len() <= u32::MAX && lists_fit(
                self.draw_group_item_lists@,
            )),
    {
        if self.draw_group_item_lists.len() > 0xffff_ffff {
            return false;
        }
        let mut i: usize = 0;
        while i < self.draw_group_item_lists.len()
            invariant
                i <= self.draw_group_item_lists.len(),
                forall|j: int|
                    0 <= j < i ==> (#[trigger] self.draw_group_item_lists@[j]).draw_group_items@.len()
                        <= u32::MAX,
            decreases self.draw_group_item_lists.len() - i,
        {
            if self.draw_group_item_lists[i].draw_group_items.len() > 0xffff_ffff {
                return false;
            }
            i += 1;
        }
        true
    }

    /// Builds the draw group chunk: a header of six bytes, then each item
    /// list with its items of 32 bytes each.
    pub fn to_chunk(&self) -> (r: Result<IffChunk, Error>)
        ensures
            match r {
                Ok(chunk) => dgrp_chunk(*self) == Ok::<ChunkModel, Error>(chunk@),
                Err(e) => dgrp_chunk(*self) == Err::<ChunkModel, Error>(e),
            },
    {
        if !self.fits() {
            return Err(Error::TooLarge { chunk_id: self.chunk_id.as_i16() });
        }
        let mut data: Vec<u8> = Vec::new();
        push_u16_le(&mut data, DGRP_HEADER_VERSION);
        push_u32_le(&mut data, self.draw_group_item_lists.len() as u32);
        let ghost head = data@;
        let ghost all = self.draw_group_item_lists@;
        let mut i: usize = 0;
        assert(all.take(0) =~= Seq::<DrawGroupItemList>::empty());
        assert(data@ =~= head + lists_bytes(all.take(0)));
        while i < self.draw_group_item_lists.len()
            invariant
                i <= self.draw_group_item_lists.len(),
                all == self.draw_group_item_lists@,
                lists_fit(all),
                data@ == head + lists_bytes(all.take(i as int)),
            decreases self.draw_group_item_lists.len() - i,
        {
            assert(all[i as int].draw_group_items@.len() <= u32::MAX);
            self.draw_group_item_lists[i].write(&mut data);
            proof {
                assert(all.take(i + 1).drop_last() =~= all.take(i as int));
                assert(all.take(i + 1).last() == all[i as int]);
                assert(data@ =~= head + lists_bytes(all.take(i + 1)));
            }
            i += 1;
        }
        assert(all.take(i as int) =~= all);
        assert(data@ =~= dgrp_payload(all));
        IffChunk::new(&TAG_DGRP, self.chunk_id, self.chunk_label.as_str(), data)
    }
}

} // verus!
