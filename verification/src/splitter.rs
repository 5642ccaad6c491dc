//! The geometry of splitting the picture of an object into the pictures
//! of its tiles.

use crate::bitmap::Bitmap;
use crate::error::{Error, PixelError};
use crate::iff::IffChunkId;
use crate::sprite::{Rotation, ZoomLevel};
use vstd::prelude::*;

verus! {

/// The least number of tiles that an object is wide or deep.
pub const MIN_OBJECT_DIMENSION: i32 = 1;

/// The largest number of tiles that an object is wide or deep.
pub const MAX_OBJECT_DIMENSION: i32 = 32;

/// The width of the picture of one tile at full size.
pub const SPRITE_WIDTH: i32 = 136;

/// The height of the picture of one tile at full size.
pub const SPRITE_HEIGHT: i32 = 384;

/// The width of the floor of one tile at full size.
pub const TILE_WIDTH: i32 = 128;

/// The height of the floor of one tile at full size.
pub const TILE_HEIGHT: i32 = 64;

/// How many tiles an object is wide and deep.
#[derive(Copy, Clone, Debug, PartialEq, Eq, Structural)]
pub struct ObjectDimensions {
    pub x: i32,
    pub y: i32,
}

/// One frame of an object that is split: its name, the id of the sprite
/// of its first tile, and its palette.
#[derive(Debug)]
pub struct FrameToSplit {
    pub name: String,
    pub sprite_id: IffChunkId,
    pub palette_id: IffChunkId,
}

/// An object that is split.
#[derive(Debug)]
pub struct ObjectDescription {
    pub dimensions: ObjectDimensions,
    pub frames: Vec<FrameToSplit>,
}

impl ObjectDimensions {
    /// Whether the object is between one and 32 tiles wide, and deep.
    pub open spec fn wf(self) -> bool {
        1 <= self.x <= 32 && 1 <= self.y <= 32
    }

    /// How many tiles the object has beyond its first, along both sides.
    pub open spec fn extra_tiles(self) -> int {
        (self.x - 1) + (self.y - 1)
    }
}

/// Whether no two frames share a base sprite id.
pub open spec fn distinct_base_ids(frames: Seq<FrameToSplit>) -> bool {
    forall|i: int, j: int|
        0 <= i < j < frames.len() ==> (#[trigger] frames[i]).sprite_id != (
        #[trigger] frames[j]).sprite_id
}

/// Whether any two base sprite ids are at least `distance` apart.
pub open spec fn base_ids_apart(frames: Seq<FrameToSplit>, distance: int) -> bool {
    forall|i: int, j: int|
        0 <= i < j < frames.len() ==> (#[trigger] frames[i]).sprite_id.0 - (
        #[trigger] frames[j]).sprite_id.0 >= distance || frames[j].sprite_id.0
            - frames[i].sprite_id.0 >= distance
}

/// Why the object cannot be split, if it cannot: its dimensions must be
/// between 1 and 32, it must have a frame, and the base sprite ids of its
/// frames must leave room for the sprites of all tiles of a frame.
pub open spec fn object_defect(object: ObjectDescription) -> Option<Error> {
    if !object.dimensions.wf() {
        Some(Error::ObjectDimension)
    } else if object.frames@.len() == 0 {
        Some(Error::NoFramesToSplit)
    } else if !distinct_base_ids(object.frames@) {
        Some(Error::DuplicateBaseSpriteId)
    } else if !base_ids_apart(object.frames@, object.dimensions.x * object.dimensions.y) {
        Some(Error::BaseSpriteIdsTooClose)
    } else {
        None
    }
}

/// Checks an object before it is split.
pub fn check_object_description(object: &ObjectDescription) -> (r: Result<(), Error>)
    ensures
        match r {
            Ok(_) => object_defect(*object) is None,
            Err(e) => object_defect(*object) == Some(e),
        },
{
    let d = object.dimensions;
    if d.x < MIN_OBJECT_DIMENSION || d.y < MIN_OBJECT_DIMENSION || d.x > MAX_OBJECT_DIMENSION
        || d.y > MAX_OBJECT_DIMENSION {
        return Err(Error::ObjectDimension);
    }
    let frames = &object.frames;
    if frames.len() == 0 {
        return Err(Error::NoFramesToSplit);
    }
    let mut j: usize = 0;
    while j < frames.len()
        invariant
            j <= frames.len(),
            frames@ == object.frames@,
            object.dimensions.wf(),
            frames@.len() > 0,
            forall|a: int, b: int|
                0 <= a < b < j ==> (#[trigger] frames@[a]).sprite_id != (
                #[trigger] frames@[b]).sprite_id,
        decreases frames.len() - j,
    {
        let mut i: usize = 0;
        while i < j
            invariant
                i <= j < frames.len(),
                frames@ == object.frames@,
                object.dimensions.wf(),
                forall|a: int|
                    0 <= a < i ==> (#[trigger] frames@[a]).sprite_id != frames@[j as int].sprite_id,
            decreases j - i,
        {
            if frames[i].sprite_id.as_i16() == frames[j].sprite_id.as_i16() {
                assert(frames@[i as int].sprite_id == frames@[j as int].sprite_id);
                return Err(Error::DuplicateBaseSpriteId);
            }
            i += 1;
        }
        j += 1;
    }
    assert(d.x * d.y <= 1024) by (nonlinear_arith)
        requires
            1 <= d.x <= 32,
            1 <= d.y <= 32,
    ;
    let distance = d.x * d.y;
    let mut j: usize = 0;
    while j < frames.len()
        invariant
            j <= frames.len(),
            frames@ == object.frames@,
            object.dimensions.wf(),
            frames@.len() > 0,
            distinct_base_ids(frames@),
            distance == object.dimensions.x * object.dimensions.y,
            forall|a: int, b: int|
                0 <= a < b < j ==> (#[trigger] frames@[a]).sprite_id.0 - (
                #[trigger] frames@[b]).sprite_id.0 >= distance || frames@[b].sprite_id.0
                    - frames@[a].sprite_id.0 >= distance,
        decreases frames.len() - j,
    {
        let mut i: usize = 0;
        while i < j
            invariant
                i <= j < frames.len(),
                frames@ == object.frames@,
                object.dimensions.wf(),
                distinct_base_ids(frames@),
                distance == object.dimensions.x * object.dimensions.y,
                forall|a: int|
                    0 <= a < i ==> (#[trigger] frames@[a]).sprite_id.0 - frames@[j as int].sprite_id.0
                        >= distance || frames@[j as int].sprite_id.0 - frames@[a].sprite_id.0
                        >= distance,
            decreases j - i,
        {
            let a = frames[i].sprite_id.as_i32();
            let b = frames[j].sprite_id.as_i32();
            if a - b < distance && b - a < distance {
                assert(!(frames@[i as int].sprite_id.0 - frames@[j as int].sprite_id.0 >= distance
                    || frames@[j as int].sprite_id.0 - frames@[i as int].sprite_id.0
                    >= distance));
                return Err(Error::BaseSpriteIdsTooClose);
            }
            i += 1;
        }
        j += 1;
    }
    Ok(())
}

/// The id of the sprite of the tile at (`tile_x`, `tile_y`) of a frame
/// whose first tile has the sprite `base`: the tiles are numbered row by
/// row.
pub fn tile_sprite_id(base: IffChunkId, dimensions: ObjectDimensions, tile_x: i32, tile_y: i32)
    -> (r: Option<IffChunkId>)
    requires
        dimensions.wf(),
        0 <= tile_x < dimensions.x,
        0 <= tile_y < dimensions.y,
    ensures
        r == if base.0 + tile_y * dimensions.x + tile_x <= i16::MAX {
            Some(IffChunkId((base.0 + tile_y * dimensions.x + tile_x) as i16))
        } else {
            None
        },
{
    assert(0 <= tile_y * dimensions.x <= 31 * 32) by (nonlinear_arith)
        requires
            0 <= tile_y <= 31,
            1 <= dimensions.x <= 32,
    ;
    let id = base.as_i32() + tile_y * dimensions.x + tile_x;
    if id > 0x7fff {
        None
    } else {
        Some(IffChunkId(id as i16))
    }
}

/// The measures of one tile's picture at a scale.
#[derive(Copy, Clone, Debug, PartialEq, Eq, Structural)]
pub struct TileMeasures {
    pub tile_width: i32,
    pub tile_height: i32,
    pub sprite_width: i32,
    pub sprite_height: i32,
}

/// The measures of one tile's picture at the scale `zoom_level`: those at
/// full size, divided by one, two or four.
pub open spec fn tile_measures(zoom_level: ZoomLevel) -> TileMeasures {
    let d = zoom_level.spec_divisor();
    TileMeasures {
        tile_width: (128int / d) as i32,
        tile_height: (64int / d) as i32,
        sprite_width: (136int / d) as i32,
        sprite_height: (384int / d) as i32,
    }
}

/// The measures of one tile's picture at a scale.
pub fn measures(zoom_level: ZoomLevel) -> (m: TileMeasures)
    ensures
        m == tile_measures(zoom_level),
{
    let d = zoom_level.divisor();
    TileMeasures {
        tile_width: TILE_WIDTH / d,
        tile_height: TILE_HEIGHT / d,
        sprite_width: SPRITE_WIDTH / d,
        sprite_height: SPRITE_HEIGHT / d,
    }
}

/// By how much the picture of the tile at (`tile_x`, `tile_y`) is moved
/// from the middle of the picture of the whole object, seen from
/// `rotation`.
pub open spec fn tile_offset(
    dimensions: ObjectDimensions,
    tile_x: int,
    tile_y: int,
    rotation: Rotation,
    zoom_level: ZoomLevel,
) -> (int, int) {
    let m = tile_measures(zoom_level);
    let extra = dimensions.extra_tiles();
    let skew = dimensions.y - dimensions.x;
    let quarter_width = m.tile_width as int / 4;
    let quarter_height = m.tile_height as int / 4;
    let xx = tile_x * (m.tile_width as int / 2);
    let xy = tile_y * (m.tile_width as int / 2);
    let yx = tile_x * (m.tile_height as int / 2);
    let yy = tile_y * (m.tile_height as int / 2);
    match rotation {
        Rotation::NorthWest => (
            -extra * quarter_width + xx + xy,
            skew * quarter_height + yx - yy,
        ),
        Rotation::NorthEast => (
            skew * quarter_width + xx - xy,
            extra * quarter_height - yx - yy,
        ),
        Rotation::SouthEast => (
            extra * quarter_width - xx - xy,
            -skew * quarter_height - yx + yy,
        ),
        Rotation::SouthWest => (
            -skew * quarter_width - xx + xy,
            -extra * quarter_height + yx + yy,
        ),
    }
}

/// Where the picture of a tile starts in the picture of the whole object.
pub open spec fn tile_origin(
    dimensions: ObjectDimensions,
    tile_x: int,
    tile_y: int,
    rotation: Rotation,
    zoom_level: ZoomLevel,
) -> (int, int) {
    let m = tile_measures(zoom_level);
    let extra = dimensions.extra_tiles();
    let full_width = m.sprite_width + extra * (m.tile_width as int / 2);
    let full_height = m.sprite_height + extra * (m.tile_width as int / 2);
    let offset = tile_offset(dimensions, tile_x, tile_y, rotation, zoom_level);
    (
        full_width / 2 + (0 - m.sprite_width as int / 2 + offset.0),
        full_height / 2 + (0 - m.sprite_height as int / 2 + offset.1),
    )
}

/// Products of numbers of tiles and tile measures are small.
pub proof fn lemma_tile_products(a: int, b: int)
    requires
        -64 <= a <= 64,
        0 <= b <= 64,
    ensures
        -4096 <= a * b <= 4096,
{
    assert(-4096 <= a * b <= 4096) by (nonlinear_arith)
        requires
            -64 <= a <= 64,
            0 <= b <= 64,
    ;
}

/// Computes where the picture of a tile starts in the picture of the
/// whole object; an error where that is outside the picture.
pub fn sub_sprite_origin(
    dimensions: ObjectDimensions,
    tile_x: i32,
    tile_y: i32,
    rotation: Rotation,
    zoom_level: ZoomLevel,
) -> (r: Result<(u32, u32), PixelError>)
    requires
        dimensions.wf(),
        0 <= tile_x < dimensions.x,
        0 <= tile_y < dimensions.y,
    ensures
        ({
            let origin = tile_origin(dimensions, tile_x as int, tile_y as int, rotation, zoom_level);
            match r {
                Ok(at) => at.0 == origin.0 && at.1 == origin.1,
                Err(e) => e == PixelError::Bounds && (origin.0 < 0 || origin.1 < 0),
            }
        }),
{
    let m = measures(zoom_level);
    let extra = (dimensions.x - 1) + (dimensions.y - 1);
    let skew = dimensions.y - dimensions.x;
    let quarter_width = m.tile_width / 4;
    let quarter_height = m.tile_height / 4;
    let half_width = m.tile_width / 2;
    let half_height = m.tile_height / 2;
    proof {
        lemma_tile_products(extra as int, quarter_width as int);
        lemma_tile_products(extra as int, quarter_height as int);
        lemma_tile_products(skew as int, quarter_width as int);
        lemma_tile_products(skew as int, quarter_height as int);
        lemma_tile_products(tile_x as int, half_width as int);
        lemma_tile_products(tile_y as int, half_width as int);
        lemma_tile_products(tile_x as int, half_height as int);
        lemma_tile_products(tile_y as int, half_height as int);
        lemma_tile_products(extra as int, half_width as int);
        lemma_tile_products(-(extra as int), quarter_width as int);
        lemma_tile_products(-(extra as int), quarter_height as int);
        lemma_tile_products(-(skew as int), quarter_width as int);
        lemma_tile_products(-(skew as int), quarter_height as int);
    }
    let xx = tile_x * half_width;
    let xy = tile_y * half_width;
    let yx = tile_x * half_height;
    let yy = tile_y * half_height;
    let (x_offset, y_offset) = match rotation {
        Rotation::NorthWest => (
            -extra * quarter_width + xx + xy,
            skew * quarter_height + yx - yy,
        ),
        Rotation::NorthEast => (
            skew * quarter_width + xx - xy,
            extra * quarter_height - yx - yy,
        ),
        Rotation::SouthEast => (
            extra * quarter_width - xx - xy,
            -skew * quarter_height - yx + yy,
        ),
        Rotation::SouthWest => (
            -skew * quarter_width - xx + xy,
            -extra * quarter_height + yx + yy,
        ),
    };
    let full_width = m.sprite_width + extra * half_width;
    let full_height = m.sprite_height + extra * half_width;
    let x = full_width / 2 + (0 - m.sprite_width / 2 + x_offset);
    let y = full_height / 2 + (0 - m.sprite_height / 2 + y_offset);
    if x < 0 || y < 0 {
        Err(PixelError::Bounds)
    } else {
        Ok((x as u32, y as u32))
    }
}

/// The tile at (`tile_x`, `tile_y`) as it is counted when the object is
/// seen from `rotation`.
pub open spec fn rotated_tile_of(
    dimensions: ObjectDimensions,
    tile_x: int,
    tile_y: int,
    rotation: Rotation,
) -> (int, int) {
    match rotation {
        Rotation::NorthWest => (tile_x, tile_y),
        Rotation::NorthEast => (dimensions.y - 1 - tile_y, tile_x),
        Rotation::SouthEast => (dimensions.x - 1 - tile_x, dimensions.y - 1 - tile_y),
        Rotation::SouthWest => (tile_y, dimensions.x - 1 - tile_x),
    }
}

/// The dimensions of the object as they are counted when it is seen from
/// `rotation`: width and depth change places for two of the directions.
pub open spec fn rotated_dimensions_of(dimensions: ObjectDimensions, rotation: Rotation)
    -> ObjectDimensions {
    match rotation {
        Rotation::NorthWest | Rotation::SouthEast => dimensions,
        Rotation::NorthEast | Rotation::SouthWest => ObjectDimensions {
            x: dimensions.y,
            y: dimensions.x,
        },
    }
}

/// The tile as it is counted when the object is seen from `rotation`.
pub fn rotated_tile(dimensions: ObjectDimensions, tile_x: i32, tile_y: i32, rotation: Rotation)
    -> (r: (i32, i32))
    requires
        dimensions.wf(),
        0 <= tile_x < dimensions.x,
        0 <= tile_y < dimensions.y,
    ensures
        r.0 == rotated_tile_of(dimensions, tile_x as int, tile_y as int, rotation).0,
        r.1 == rotated_tile_of(dimensions, tile_x as int, tile_y as int, rotation).1,
        0 <= r.0 < rotated_dimensions_of(dimensions, rotation).x,
        0 <= r.1 < rotated_dimensions_of(dimensions, rotation).y,
{
    match rotation {
        Rotation::NorthWest => (tile_x, tile_y),
        Rotation::NorthEast => (dimensions.y - 1 - tile_y, tile_x),
        Rotation::SouthEast => (dimensions.x - 1 - tile_x, dimensions.y - 1 - tile_y),
        Rotation::SouthWest => (tile_y, dimensions.x - 1 - tile_x),
    }
}

/// The dimensions of the object as they are counted when it is seen from
/// `rotation`.
pub fn rotated_dimensions(dimensions: ObjectDimensions, rotation: Rotation) -> (r:
    ObjectDimensions)
    ensures
        r == rotated_dimensions_of(dimensions, rotation),
{
    match rotation {
        Rotation::NorthWest | Rotation::SouthEast => dimensions,
        Rotation::NorthEast | Rotation::SouthWest => ObjectDimensions {
            x: dimensions.y,
            y: dimensions.x,
        },
    }
}

/// The picture of an object of one tile is the picture of its tile.
pub proof fn lemma_single_tile(rotation: Rotation, zoom_level: ZoomLevel)
    ensures
        tile_offset(ObjectDimensions { x: 1, y: 1 }, 0, 0, rotation, zoom_level) == (0int, 0int),
        tile_origin(ObjectDimensions { x: 1, y: 1 }, 0, 0, rotation, zoom_level) == (0int, 0int),
{
    let d = zoom_level.spec_divisor();
    let m = tile_measures(zoom_level);
    if d == 1 {
        assert(m.tile_width == 128 && m.tile_height == 64);
        assert(m.sprite_width == 136 && m.sprite_height == 384);
    } else if d == 2 {
        assert(m.tile_width == 64 && m.tile_height == 32);
        assert(m.sprite_width == 68 && m.sprite_height == 192);
    } else {
        assert(d == 4);
        assert(m.tile_width == 32 && m.tile_height == 16);
        assert(m.sprite_width == 34 && m.sprite_height == 96);
    }
}

/// Whether no sample of the bitmap differs from zero.
pub open spec fn all_zero(bitmap: Bitmap) -> bool {
    forall|i: int| 0 <= i < bitmap.pixels@.len() ==> #[trigger] bitmap.pixels@[i] == 0
}

/// Whether nothing is drawn of a tile: none of the alpha bitmaps of its
/// frames holds a sample that is not zero.
pub fn is_tile_empty(alphas: &Vec<Bitmap>) -> (empty: bool)
    ensures
        empty == forall|k: int| 0 <= k < alphas@.len() ==> all_zero(#[trigger] alphas@[k]),
{
    let mut k: usize = 0;
    while k < alphas.len()
        invariant
            k <= alphas.len(),
            forall|j: int| 0 <= j < k ==> all_zero(#[trigger] alphas@[j]),
        decreases alphas.len() - k,
    {
        let pixels = &alphas[k].pixels;
        let mut i: usize = 0;
        while i < pixels.len()
            invariant
                i <= pixels.len(),
                k < alphas.len(),
                pixels@ == alphas@[k as int].pixels@,
                forall|j: int| 0 <= j < i ==> #[trigger] pixels@[j] == 0,
            decreases pixels.len() - i,
        {
            if pixels[i] != 0 {
                assert(!all_zero(alphas@[k as int]));
                return false;
            }
            i += 1;
        }
        k += 1;
    }
    true
}

} // verus!
