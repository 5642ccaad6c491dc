//! What a sprite frame is drawn at, and where in its bitmap the drawn part
//! of a frame lies.

use crate::bitmap::Bitmap;
use crate::error::PixelError;
use crate::iff::IffChunkId;
use vstd::prelude::*;
use vstd::string::StringExecFns;

verus! {

/// One of the three scales at which a frame is drawn.
#[derive(Copy, Clone, Debug, PartialEq, Eq, Structural)]
pub enum ZoomLevel {
    Zero,
    One,
    Two,
}

/// One of the four directions from which a frame is seen.
#[derive(Copy, Clone, Debug, PartialEq, Eq, Structural)]
pub enum Rotation {
    NorthWest,
    NorthEast,
    SouthEast,
    SouthWest,
}

impl ZoomLevel {
    /// The name of the scale in file names.
    pub open spec fn spec_name(self) -> Seq<char> {
        match self {
            ZoomLevel::Zero => "large"@,
            ZoomLevel::One => "medium"@,
            ZoomLevel::Two => "small"@,
        }
    }

    /// The name of the scale in file names.
    pub fn name(self) -> (s: &'static str)
        ensures
            s@ == self.spec_name(),
    {
        match self {
            ZoomLevel::Zero => "large",
            ZoomLevel::One => "medium",
            ZoomLevel::Two => "small",
        }
    }

    /// By how much the full-size measures are divided at this scale.
    pub open spec fn spec_divisor(self) -> int {
        match self {
            ZoomLevel::Zero => 1,
            ZoomLevel::One => 2,
            ZoomLevel::Two => 4,
        }
    }

    /// By how much the full-size measures are divided at this scale.
    pub fn divisor(self) -> (d: i32)
        ensures
            d == self.spec_divisor(),
    {
        match self {
            ZoomLevel::Zero => 1,
            ZoomLevel::One => 2,
            ZoomLevel::Two => 4,
        }
    }
}

impl Rotation {
    /// The direction as the exporter of the frames counts it: north-west
    /// and south-east change places, the other two stay.
    pub open spec fn spec_transmogrify(self) -> Rotation {
        match self {
            Rotation::NorthWest => Rotation::SouthEast,
            Rotation::NorthEast => Rotation::NorthEast,
            Rotation::SouthEast => Rotation::NorthWest,
            Rotation::SouthWest => Rotation::SouthWest,
        }
    }

    /// The direction as the exporter of the frames counts it.
    pub fn transmogrify(&self) -> (r: Rotation)
        ensures
            r == self.spec_transmogrify(),
    {
        match self {
            Rotation::NorthWest => Rotation::SouthEast,
            Rotation::NorthEast => Rotation::NorthEast,
            Rotation::SouthEast => Rotation::NorthWest,
            Rotation::SouthWest => Rotation::SouthWest,
        }
    }

    /// The name of the direction in file names.
    pub open spec fn spec_name(self) -> Seq<char> {
        match self {
            Rotation::NorthWest => "nw"@,
            Rotation::NorthEast => "ne"@,
            Rotation::SouthEast => "se"@,
            Rotation::SouthWest => "sw"@,
        }
    }

    /// The name of the direction in file names.
    pub fn name(self) -> (s: &'static str)
        ensures
            s@ == self.spec_name(),
    {
        match self {
            Rotation::NorthWest => "nw",
            Rotation::NorthEast => "ne",
            Rotation::SouthEast => "se",
            Rotation::SouthWest => "sw",
        }
    }
}

/// Counting a direction the exporter's way twice gives the direction back.
pub proof fn lemma_transmogrify_twice(rotation: Rotation)
    ensures
        rotation.spec_transmogrify().spec_transmogrify() == rotation,
{
}

/// The smallest rectangle that holds the drawn part of a frame: columns
/// `left` up to but without `right`, rows `top` up to but without `bottom`.
#[derive(Copy, Clone, Debug, PartialEq, Eq, Structural)]
pub struct SpriteBounds {
    pub left: i16,
    pub top: i16,
    pub right: i16,
    pub bottom: i16,
}

/// Where a frame is drawn relative to the centre of its tile.
#[derive(Copy, Clone, Debug, PartialEq, Eq, Structural)]
pub struct SpriteOffsets {
    pub x: i32,
    pub y: i32,
    pub x_flipped: i32,
}

/// What is known of a frame's bitmap without its pixels.
#[derive(Copy, Clone, Debug, PartialEq, Eq, Structural)]
pub struct SpriteImageDescription {
    pub width: i16,
    pub height: i16,
    pub bounds: SpriteBounds,
    pub offsets: SpriteOffsets,
    pub palette_id: IffChunkId,
    pub transparent_color_index: u8,
}

/// The file, within the directory of a frame, that describes the frame at
/// this scale and from this direction.
pub fn get_sprite_image_description_file_path(zoom_level: ZoomLevel, rotation: Rotation) -> (path:
    String)
    ensures
        path@ == zoom_level.spec_name() + "_"@ + rotation.spec_name() + " description.json"@,
{
    String::from_str(zoom_level.name()).concat("_").concat(rotation.name()).concat(
        " description.json",
    )
}

/// The column of the tile centre in a full-size frame.
pub const SPRITE_CENTER_X: i32 = 68;

/// The row of the tile centre in a full-size frame.
pub const SPRITE_CENTER_Y: i32 = 348;

/// Whether column `x` of `alpha` holds a sample that is not zero.
pub open spec fn column_used(alpha: Bitmap, x: int) -> bool {
    exists|y: int| 0 <= y < alpha.height && #[trigger] alpha.at(x, y) != 0
}

/// Whether row `y` of `alpha` holds a sample that is not zero.
pub open spec fn row_used(alpha: Bitmap, y: int) -> bool {
    exists|x: int| 0 <= x < alpha.width && #[trigger] alpha.at(x, y) != 0
}

/// Whether no sample of `alpha` differs from zero.
pub open spec fn blank(alpha: Bitmap) -> bool {
    forall|x: int| 0 <= x < alpha.width ==> !#[trigger] column_used(alpha, x)
}

/// Whether `bounds` is the smallest rectangle that holds every sample of
/// `alpha` that is not zero.
pub open spec fn tight(alpha: Bitmap, bounds: SpriteBounds) -> bool {
    &&& 0 <= bounds.left < bounds.right <= alpha.width
    &&& 0 <= bounds.top < bounds.bottom <= alpha.height
    &&& column_used(alpha, bounds.left as int)
    &&& column_used(alpha, bounds.right - 1)
    &&& row_used(alpha, bounds.top as int)
    &&& row_used(alpha, bounds.bottom - 1)
    &&& forall|x: int|
        0 <= x < alpha.width && #[trigger] column_used(alpha, x) ==> bounds.left <= x
            < bounds.right
    &&& forall|y: int|
        0 <= y < alpha.height && #[trigger] row_used(alpha, y) ==> bounds.top <= y < bounds.bottom
}

/// Where a frame with these bounds, in a bitmap of this width, is drawn at
/// this scale.
pub open spec fn offsets_of(zoom_level: ZoomLevel, width: int, bounds: SpriteBounds)
    -> SpriteOffsets {
    let center_x = SPRITE_CENTER_X as int / zoom_level.spec_divisor();
    let center_y = SPRITE_CENTER_Y as int / zoom_level.spec_divisor();
    SpriteOffsets {
        x: (bounds.left - center_x) as i32,
        y: (bounds.bottom - center_y) as i32,
        x_flipped: (width - bounds.right - center_x) as i32,
    }
}

/// The description of a frame of which nothing is drawn.
pub open spec fn empty_description(palette_id: IffChunkId, transparent_color_index: u8)
    -> SpriteImageDescription {
    SpriteImageDescription {
        width: 0,
        height: 0,
        bounds: SpriteBounds { left: 0, top: 0, right: 0, bottom: 0 },
        offsets: SpriteOffsets { x: 0, y: 0, x_flipped: 0 },
        palette_id,
        transparent_color_index,
    }
}

/// Whether `description` is what `alpha` says of its frame.
pub open spec fn describes(
    alpha: Bitmap,
    zoom_level: ZoomLevel,
    palette_id: IffChunkId,
    transparent_color_index: u8,
    description: SpriteImageDescription,
) -> bool {
    if blank(alpha) {
        description == empty_description(palette_id, transparent_color_index)
    } else {
        &&& description.width == alpha.width
        &&& description.height == alpha.height
        &&& tight(alpha, description.bounds)
        &&& description.offsets == offsets_of(zoom_level, alpha.width as int, description.bounds)
        &&& description.palette_id == palette_id
        &&& description.transparent_color_index == transparent_color_index
    }
}

/// Whether column `x` holds a sample that is not zero.
fn column_has_sample(alpha: &Bitmap, x: u32) -> (used: bool)
    requires
        alpha.wf(),
        x < alpha.width,
    ensures
        used == column_used(*alpha, x as int),
{
    let mut y: u32 = 0;
    while y < alpha.height
        invariant
            y <= alpha.height,
            alpha.wf(),
            x < alpha.width,
            forall|v: int| 0 <= v < y ==> alpha.at(x as int, v) == 0,
        decreases alpha.height - y,
    {
        if alpha.pixel(x, y) != 0 {
            return true;
        }
        y += 1;
    }
    false
}

/// Whether row `y` holds a sample that is not zero.
fn row_has_sample(alpha: &Bitmap, y: u32) -> (used: bool)
    requires
        alpha.wf(),
        y < alpha.height,
    ensures
        used == row_used(*alpha, y as int),
{
    let mut x: u32 = 0;
    while x < alpha.width
        invariant
            x <= alpha.width,
            alpha.wf(),
            y < alpha.height,
            forall|u: int| 0 <= u < x ==> alpha.at(u, y as int) == 0,
        decreases alpha.width - x,
    {
        if alpha.pixel(x, y) != 0 {
            return true;
        }
        x += 1;
    }
    false
}

/// The first column that holds a sample that is not zero.
fn first_used_column(alpha: &Bitmap) -> (r: Option<u32>)
    requires
        alpha.wf(),
    ensures
        match r {
            Some(x) => x < alpha.width && column_used(*alpha, x as int) && forall|u: int|
                0 <= u < x ==> !#[trigger] column_used(*alpha, u),
            None => blank(*alpha),
        },
{
    let mut x: u32 = 0;
    while x < alpha.width
        invariant
            x <= alpha.width,
            alpha.wf(),
            forall|u: int| 0 <= u < x ==> !#[trigger] column_used(*alpha, u),
        decreases alpha.width - x,
    {
        if column_has_sample(alpha, x) {
            return Some(x);
        }
        x += 1;
    }
    None
}

/// The last column that holds a sample that is not zero.
fn last_used_column(alpha: &Bitmap) -> (r: Option<u32>)
    requires
        alpha.wf(),
    ensures
        match r {
            Some(x) => x < alpha.width && column_used(*alpha, x as int) && forall|u: int|
                x < u < alpha.width ==> !#[trigger] column_used(*alpha, u),
            None => blank(*alpha),
        },
{
    let mut x: u32 = alpha.width;
    while x > 0
        invariant
            x <= alpha.width,
            alpha.wf(),
            forall|u: int| x <= u < alpha.width ==> !#[trigger] column_used(*alpha, u),
        decreases x,
    {
        x -= 1;
        if column_has_sample(alpha, x) {
            return Some(x);
        }
    }
    None
}

/// The first row that holds a sample that is not zero.
fn first_used_row(alpha: &Bitmap) -> (r: Option<u32>)
    requires
        alpha.wf(),
    ensures
        match r {
            Some(y) => y < alpha.height && row_used(*alpha, y as int) && forall|v: int|
                0 <= v < y ==> !#[trigger] row_used(*alpha, v),
            None => forall|v: int| 0 <= v < alpha.height ==> !#[trigger] row_used(*alpha, v),
        },
{
    let mut y: u32 = 0;
    while y < alpha.height
        invariant
            y <= alpha.height,
            alpha.wf(),
            forall|v: int| 0 <= v < y ==> !#[trigger] row_used(*alpha, v),
        decreases alpha.height - y,
    {
        if row_has_sample(alpha, y) {
            return Some(y);
        }
        y += 1;
    }
    None
}

/// The last row that holds a sample that is not zero.
fn last_used_row(alpha: &Bitmap) -> (r: Option<u32>)
    requires
        alpha.wf(),
    ensures
        match r {
            Some(y) => y < alpha.height && row_used(*alpha, y as int) && forall|v: int|
                y < v < alpha.height ==> !#[trigger] row_used(*alpha, v),
            None => forall|v: int| 0 <= v < alpha.height ==> !#[trigger] row_used(*alpha, v),
        },
{
    let mut y: u32 = alpha.height;
    while y > 0
        invariant
            y <= alpha.height,
            alpha.wf(),
            forall|v: int| y <= v < alpha.height ==> !#[trigger] row_used(*alpha, v),
        decreases y,
    {
        y -= 1;
        if row_has_sample(alpha, y) {
            return Some(y);
        }
    }
    None
}

/// A used column has a used row, and a used row a used column.
pub proof fn lemma_used(alpha: Bitmap, x: int, y: int)
    requires
        0 <= x < alpha.width,
        0 <= y < alpha.height,
        alpha.at(x, y) != 0,
    ensures
        column_used(alpha, x),
        row_used(alpha, y),
        !blank(alpha),
{
    assert(column_used(alpha, x));
}

/// Describes a frame from its alpha plane: the size of the bitmap, the
/// smallest rectangle that holds every sample that is not zero, and where
/// the frame is drawn at the given scale.
///
/// A frame of which nothing is drawn has the empty description: its size
/// and its bounds are all zero. Measures that do not fit the 16-bit fields
/// of a description are refused.
pub fn calculate_sprite_image_description(
    alpha_sprite: &Bitmap,
    zoom_level: ZoomLevel,
    palette_id: IffChunkId,
    transparent_color_index: u8,
) -> (r: Result<SpriteImageDescription, PixelError>)
    ensures
        match r {
            Ok(description) => alpha_sprite.wf() && describes(
                *alpha_sprite,
                zoom_level,
                palette_id,
                transparent_color_index,
                description,
            ),
            Err(e) => if !alpha_sprite.wf() {
                e == PixelError::PixelCount
            } else {
                e == PixelError::Bounds && !blank(*alpha_sprite) && (alpha_sprite.width > i16::MAX
                    || alpha_sprite.height > i16::MAX)
            },
        },
        r is Ok <==> alpha_sprite.wf() && (blank(*alpha_sprite) || (alpha_sprite.width <= i16::MAX
            && alpha_sprite.height <= i16::MAX)),
{
    if !alpha_sprite.check() {
        return Err(PixelError::PixelCount);
    }
    let left = match first_used_column(alpha_sprite) {
        Some(x) => x,
        None => {
            return Ok(
                SpriteImageDescription {
                    width: 0,
                    height: 0,
                    bounds: SpriteBounds { left: 0, top: 0, right: 0, bottom: 0 },
                    offsets: SpriteOffsets { x: 0, y: 0, x_flipped: 0 },
                    palette_id,
                    transparent_color_index,
                },
            );
        },
    };
    if alpha_sprite.width > 0x7fff || alpha_sprite.height > 0x7fff {
        return Err(PixelError::Bounds);
    }
    proof {
        let y = choose|y: int| 0 <= y < alpha_sprite.height && alpha_sprite.at(left as int, y) != 0;
        lemma_used(*alpha_sprite, left as int, y);
    }
    let right = match last_used_column(alpha_sprite) {
        Some(x) => x + 1,
        None => {
            return Err(PixelError::Bounds);
        },
    };
    let top = match first_used_row(alpha_sprite) {
        Some(y) => y,
        None => {
            return Err(PixelError::Bounds);
        },
    };
    let bottom = match last_used_row(alpha_sprite) {
        Some(y) => y + 1,
        None => {
            return Err(PixelError::Bounds);
        },
    };
    let center_x = SPRITE_CENTER_X / zoom_level.divisor();
    let center_y = SPRITE_CENTER_Y / zoom_level.divisor();
    let width = alpha_sprite.width as i32;
    let bounds = SpriteBounds {
        left: left as i16,
        top: top as i16,
        right: right as i16,
        bottom: bottom as i16,
    };
    Ok(
        SpriteImageDescription {
            width: alpha_sprite.width as i16,
            height: alpha_sprite.height as i16,
            bounds,
            offsets: SpriteOffsets {
                x: left as i32 - center_x,
                y: bottom as i32 - center_y,
                x_flipped: width - right as i32 - center_x,
            },
            palette_id,
            transparent_color_index,
        },
    )
}

} // verus!
