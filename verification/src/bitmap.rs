//! Decoded bitmaps: one byte per pixel, rows from the top down, as the
//! builders of image-bearing records take them.

use crate::error::PixelError;
use vstd::prelude::*;

verus! {

/// An 8-bit bitmap: `width * height` samples in row-major order, top row
/// first, and the colour table that the samples index. A grey-scale bitmap
/// has no colour table.
#[derive(Debug)]
pub struct Bitmap {
    pub width: u32,
    pub height: u32,
    pub pixels: Vec<u8>,
    pub palette: Vec<[u8; 3]>,
}

/// The bitmap stored under a channel's file path.
#[derive(Debug)]
pub struct ChannelImage {
    pub path: String,
    pub bitmap: Bitmap,
}

/// The channel bitmaps that a rebuild can draw on, by file path.
#[derive(Debug)]
pub struct ImageStore {
    pub images: Vec<ChannelImage>,
}

impl Bitmap {
    /// The bitmap has one sample for every pixel.
    pub open spec fn wf(&self) -> bool {
        self.pixels@.len() == self.width * self.height
    }

    /// The sample at column `x` of row `y`.
    pub open spec fn at(&self, x: int, y: int) -> u8 {
        self.pixels@[y * self.width + x]
    }

    /// Whether the bitmap has one sample for every pixel.
    pub fn check(&self) -> (ok: bool)
        ensures
            ok == self.wf(),
    {
        assert(self.width * self.height <= 0xffff_ffff * 0xffff_ffff) by (nonlinear_arith)
            requires
                self.width <= 0xffff_ffff,
                self.height <= 0xffff_ffff,
        ;
        let expected = self.width as u64 * self.height as u64;
        self.pixels.len() as u64 == expected
    }

    /// The sample at column `x` of row `y`.
    pub fn pixel(&self, x: u32, y: u32) -> (p: u8)
        requires
            self.wf(),
            x < self.width,
            y < self.height,
        ensures
            p == self.at(x as int, y as int),
    {
        let count = self.pixels.len();
        proof {
            lemma_index_in_range(x as int, y as int, self.width as int, self.height as int);
        }
        self.pixels[y as usize * self.width as usize + x as usize]
    }
}

/// A pixel inside a bitmap has an index inside its samples.
pub proof fn lemma_index_in_range(x: int, y: int, width: int, height: int)
    requires
        0 <= x < width,
        0 <= y < height,
    ensures
        0 <= y * width <= y * width + x < width * height,
        (y + 1) * width <= width * height,
        (y + 1) * width == y * width + width,
{
    assert(0 <= y * width && (y + 1) * width <= height * width && (y + 1) * width == y * width
        + width && height * width == width * height) by (nonlinear_arith)
        requires
            0 <= y < height,
            0 < width,
    ;
}

/// The samples of the `width` by `height` rectangle of `bitmap` whose top
/// left corner is at (`x`, `y`), row by row.
pub open spec fn rect_of(bitmap: Bitmap, x: int, y: int, width: int, height: int) -> Seq<u8> {
    Seq::new(
        (width * height) as nat,
        |k: int| bitmap.at(x + k % width, y + k / width),
    )
}

/// The samples of a rectangle of `bitmap`, or why it has none: the bitmap
/// must hold all its samples and the rectangle must lie inside it.
pub open spec fn read_rect(bitmap: Bitmap, x: int, y: int, width: int, height: int) -> Result<
    Seq<u8>,
    PixelError,
> {
    if !bitmap.wf() {
        Err(PixelError::PixelCount)
    } else if x + width > bitmap.width || y + height > bitmap.height {
        Err(PixelError::Bounds)
    } else {
        Ok(rect_of(bitmap, x, y, width, height))
    }
}

/// Dividing an index into a rectangle by the rectangle's width gives the
/// row and the column.
pub proof fn lemma_row_column(row: int, column: int, width: int)
    requires
        0 <= column < width,
        0 <= row,
    ensures
        (row * width + column) / width == row,
        (row * width + column) % width == column,
{
    assert((row * width + column) / width == row && (row * width + column) % width == column)
        by (nonlinear_arith)
        requires
            0 <= column < width,
            0 <= row,
    ;
}

/// Copies a rectangle out of a bitmap.
pub fn read_bmp_rect(bitmap: &Bitmap, x: u32, y: u32, width: u32, height: u32) -> (r: Result<
    Vec<u8>,
    PixelError,
>)
    ensures
        match r {
            Ok(pixels) => read_rect(*bitmap, x as int, y as int, width as int, height as int)
                == Ok::<Seq<u8>, PixelError>(pixels@),
            Err(e) => read_rect(*bitmap, x as int, y as int, width as int, height as int) == Err::<
                Seq<u8>,
                PixelError,
            >(e),
        },
{
    if !bitmap.check() {
        return Err(PixelError::PixelCount);
    }
    if x as u64 + width as u64 > bitmap.width as u64 || y as u64 + height as u64
        > bitmap.height as u64 {
        return Err(PixelError::Bounds);
    }
    let mut pixels: Vec<u8> = Vec::new();
    let mut row: u32 = 0;
    while row < height
        invariant
            row <= height,
            bitmap.wf(),
            x + width <= bitmap.width,
            y + height <= bitmap.height,
            pixels@.len() == row * width,
            forall|k: int|
                0 <= k < pixels@.len() ==> pixels@[k] == bitmap.at(
                    x + k % (width as int),
                    y + k / (width as int),
                ),
        decreases height - row,
    {
        let mut column: u32 = 0;
        while column < width
            invariant
                column <= width,
                row < height,
                bitmap.wf(),
                x + width <= bitmap.width,
                y + height <= bitmap.height,
                pixels@.len() == row * width + column,
                forall|k: int|
                    0 <= k < pixels@.len() ==> pixels@[k] == bitmap.at(
                        x + k % (width as int),
                        y + k / (width as int),
                    ),
            decreases width - column,
        {
            proof {
                lemma_row_column(row as int, column as int, width as int);
            }
            let p = bitmap.pixel(x + column, y + row);
            pixels.push(p);
            column += 1;
        }
        proof {
            assert(row * width + width == (row + 1) * width) by (nonlinear_arith);
        }
        row += 1;
    }
    proof {
        let w = width as int;
        let h = height as int;
        assert(pixels@.len() == w * h) by (nonlinear_arith)
            requires
                pixels@.len() == h * w,
        ;
        assert(pixels@ =~= rect_of(*bitmap, x as int, y as int, w, h));
    }
    Ok(pixels)
}

/// The index of the first image of `images` stored under `path`.
pub open spec fn image_at(images: Seq<ChannelImage>, path: Seq<char>) -> Option<int>
    decreases images.len(),
{
    if images.len() == 0 {
        None
    } else if images[0].path@ == path {
        Some(0)
    } else {
        match image_at(images.drop_first(), path) {
            Some(i) => Some(i + 1),
            None => None,
        }
    }
}

/// An index that was found is that of an image stored under the path.
pub proof fn lemma_image_at(images: Seq<ChannelImage>, path: Seq<char>)
    ensures
        image_at(images, path) matches Some(i) ==> 0 <= i < images.len() && images[i].path@
            == path,
    decreases images.len(),
{
    if images.len() > 0 && images[0].path@ != path {
        lemma_image_at(images.drop_first(), path);
    }
}

impl ImageStore {
    /// The bitmap stored under `path`, if there is one.
    pub fn find(&self, path: &str) -> (r: Option<&Bitmap>)
        ensures
            match r {
                Some(bitmap) => image_at(self.images@, path@) matches Some(i) && *bitmap
                    == self.images@[i].bitmap,
                None => image_at(self.images@, path@) is None,
            },
    {
        let mut i: usize = 0;
        let ghost all = self.images@;
        assert(all.skip(0) =~= all);
        while i < self.images.len()
            invariant
                i <= self.images.len(),
                all == self.images@,
                image_at(all, path@) == match image_at(all.skip(i as int), path@) {
                    Some(k) => Some(k + i),
                    None => None,
                },
            decreases self.images.len() - i,
        {
            assert(all.skip(i as int).drop_first() =~= all.skip(i + 1));
            if str_equal(self.images[i].path.as_str(), path) {
                return Some(&self.images[i].bitmap);
            }
            i += 1;
        }
        None
    }
}

/// Whether two strings are the same text.
pub fn str_equal(a: &str, b: &str) -> (same: bool)
    ensures
        same == (a@ == b@),
{
    let x = a.to_owned();
    let y = b.to_owned();
    x == y
}

} // verus!
