//! Sprite chunks: the frames of a sprite, read from the bitmaps of their
//! channels and written in the pixel format of the sprite.

use crate::bitmap::{
    image_at, lemma_image_at, read_bmp_rect, read_rect, Bitmap, ChannelImage, ImageStore,
};
use crate::bytes::{le_i32, le_u32, push_all, push_i32_le, push_u32_le};
use crate::error::{Error, PixelError};
use crate::iff::{new_chunk, ChunkModel, IffChunk, IffChunkId, TAG_SPR1, TAG_SPR2};
use crate::spr::{channel_path, Sprite, SpriteChannelType, SpriteFrame, SpriteType};
use crate::spr1::{encode_spr1_frame, legacy_frame};
use crate::spr2::{encode_frame, Spr2FrameModel};
use crate::spr2_frame::{encode_spr2_frame, Spr2Frame};
use vstd::prelude::*;
use vstd::utf8::encode_utf8;

verus! {

/// The version of the legacy sprite layout that is written.
pub const SPR1_VERSION: u32 = 504;

/// The version of the modern sprite layout that is written.
pub const SPR2_VERSION: u32 = 1000;

/// The transparent colour of a sprite in the custom wall style.
pub const WALL_STYLE_TRANSPARENT: u8 = 255;

/// The 8-bit bitmap stored under `path`, or why there is none: no bitmap
/// was supplied for the sprite under that path, or the one supplied has no
/// colour table.
pub open spec fn indexed_bitmap(images: Seq<ChannelImage>, path: Seq<char>, sprite_id: i16)
    -> Result<Bitmap, Error> {
    match image_at(images, path) {
        None => Err(Error::MissingPixels { sprite_id }),
        Some(i) => if images[i].bitmap.palette@.len() == 0 {
            Err(Error::NotIndexed { sprite_id })
        } else {
            Ok(images[i].bitmap)
        },
    }
}

/// Looks up the 8-bit bitmap of a channel file.
pub fn read_bmp<'a>(images: &'a ImageStore, path: &str, sprite_id: IffChunkId) -> (r: Result<
    &'a Bitmap,
    Error,
>)
    ensures
        match r {
            Ok(bitmap) => indexed_bitmap(images.images@, path@, sprite_id.0) == Ok::<
                Bitmap,
                Error,
            >(*bitmap),
            Err(e) => indexed_bitmap(images.images@, path@, sprite_id.0) == Err::<Bitmap, Error>(
                e,
            ),
        },
{
    match images.find(path) {
        None => Err(Error::MissingPixels { sprite_id: sprite_id.as_i16() }),
        Some(bitmap) => {
            if bitmap.palette.len() == 0 {
                Err(Error::NotIndexed { sprite_id: sprite_id.as_i16() })
            } else {
                Ok(bitmap)
            }
        },
    }
}

/// The encoded frames as sequences of bytes.
pub open spec fn views(frames: Seq<Vec<u8>>) -> Seq<Seq<u8>> {
    Seq::new(frames.len(), |i: int| frames[i]@)
}

/// How many bytes the frames take together.
pub open spec fn frames_len(frames: Seq<Seq<u8>>) -> int
    decreases frames.len(),
{
    if frames.len() == 0 {
        0
    } else {
        frames_len(frames.drop_last()) + frames.last().len()
    }
}

/// The frames one after the other.
pub open spec fn frames_bytes(frames: Seq<Seq<u8>>) -> Seq<u8>
    decreases frames.len(),
{
    if frames.len() == 0 {
        Seq::empty()
    } else {
        frames_bytes(frames.drop_last()) + frames.last()
    }
}

/// The table of the frames' offsets in the payload, where the first frame
/// starts at `first`.
pub open spec fn offset_table(frames: Seq<Seq<u8>>, first: int) -> Seq<u8>
    decreases frames.len(),
{
    if frames.len() == 0 {
        Seq::empty()
    } else {
        offset_table(frames.drop_last(), first) + le_u32(
            (first + frames_len(frames.drop_last())) as u32,
        )
    }
}

/// The payload of a sprite chunk: the version, the number of frames, the
/// palette, one offset for each frame, and the frames. An error where an
/// offset does not fit in 32 bits.
pub open spec fn sprite_payload(
    id: i16,
    version: u32,
    count: u32,
    palette: i32,
    frames: Seq<Seq<u8>>,
) -> Result<Seq<u8>, Error> {
    if 12 + 4 * count + frames_len(frames) > u32::MAX {
        Err(Error::TooLarge { chunk_id: id })
    } else {
        Ok(
            le_u32(version) + le_u32(count) + le_i32(palette) + offset_table(
                frames,
                12 + 4 * count,
            ) + frames_bytes(frames),
        )
    }
}

/// The frames take at least as many bytes as any first part of them.
pub proof fn lemma_frames_len(frames: Seq<Seq<u8>>, k: int)
    requires
        0 <= k <= frames.len(),
    ensures
        0 <= frames_len(frames.take(k)) <= frames_len(frames),
    decreases frames.len() - k,
{
    if k == frames.len() {
        assert(frames.take(k) =~= frames);
        lemma_frames_len_nonneg(frames);
    } else {
        lemma_frames_len(frames, k + 1);
        assert(frames.take(k + 1).drop_last() =~= frames.take(k));
        lemma_frames_len_nonneg(frames.take(k));
    }
}

/// Frames do not take a negative number of bytes.
pub proof fn lemma_frames_len_nonneg(frames: Seq<Seq<u8>>)
    ensures
        0 <= frames_len(frames),
    decreases frames.len(),
{
    if frames.len() > 0 {
        lemma_frames_len_nonneg(frames.drop_last());
    }
}

/// Puts the payload of a sprite chunk together.
pub fn assemble_sprite(
    id: IffChunkId,
    version: u32,
    count: u32,
    palette: i32,
    frames: &Vec<Vec<u8>>,
) -> (r: Result<Vec<u8>, Error>)
    ensures
        match r {
            Ok(payload) => sprite_payload(id.0, version, count, palette, views(frames@)) == Ok::<
                Seq<u8>,
                Error,
            >(payload@),
            Err(e) => sprite_payload(id.0, version, count, palette, views(frames@)) == Err::<
                Seq<u8>,
                Error,
            >(e),
        },
{
    let ghost all = views(frames@);
    let first: u64 = 12 + 4 * (count as u64);
    if first > 0xffff_ffff {
        proof {
            lemma_frames_len_nonneg(all);
        }
        return Err(Error::TooLarge { chunk_id: id.as_i16() });
    }
    let mut total: u64 = first;
    let mut i: usize = 0;
    assert(all.take(0) =~= Seq::<Seq<u8>>::empty());
    while i < frames.len()
        invariant
            i <= frames.len(),
            all == views(frames@),
            first == 12 + 4 * count,
            total == first + frames_len(all.take(i as int)),
            total <= u32::MAX,
        decreases frames.len() - i,
    {
        proof {
            assert(all.take(i + 1).drop_last() =~= all.take(i as int));
            assert(all.take(i + 1).last() == frames@[i as int]@);
            lemma_frames_len(all, i + 1);
        }
        if frames[i].len() as u64 > 0xffff_ffff - total {
            return Err(Error::TooLarge { chunk_id: id.as_i16() });
        }
        total = total + frames[i].len() as u64;
        i += 1;
    }
    assert(all.take(i as int) =~= all);
    let mut out: Vec<u8> = Vec::new();
    push_u32_le(&mut out, version);
    push_u32_le(&mut out, count);
    push_i32_le(&mut out, palette);
    let ghost head = out@;
    let mut address: u64 = first;
    let mut i: usize = 0;
    assert(out@ =~= head + offset_table(all.take(0), first as int));
    while i < frames.len()
        invariant
            i <= frames.len(),
            all == views(frames@),
            first + frames_len(all) <= u32::MAX,
            address == first + frames_len(all.take(i as int)),
            out@ == head + offset_table(all.take(i as int), first as int),
        decreases frames.len() - i,
    {
        proof {
            assert(all.take(i + 1).drop_last() =~= all.take(i as int));
            assert(all.take(i + 1).last() == frames@[i as int]@);
            lemma_frames_len(all, i as int);
            lemma_frames_len(all, i + 1);
        }
        push_u32_le(&mut out, address as u32);
        assert(out@ =~= head + offset_table(all.take(i + 1), first as int));
        address = address + frames[i].len() as u64;
        i += 1;
    }
    assert(all.take(i as int) =~= all);
    let ghost table = out@;
    let mut i: usize = 0;
    assert(out@ =~= table + frames_bytes(all.take(0)));
    while i < frames.len()
        invariant
            i <= frames.len(),
            all == views(frames@),
            out@ == table + frames_bytes(all.take(i as int)),
        decreases frames.len() - i,
    {
        proof {
            assert(all.take(i + 1).drop_last() =~= all.take(i as int));
            assert(all.take(i + 1).last() == frames@[i as int]@);
        }
        push_all(&mut out, frames[i].as_slice());
        assert(out@ =~= table + frames_bytes(all.take(i + 1)));
        i += 1;
    }
    assert(all.take(i as int) =~= all);
    Ok(out)
}

/// What is wrong with the pixels of the frame `frame` of the sprite
/// `sprite_id`, as a failure of the rebuild.
pub open spec fn frame_error(cause: PixelError, sprite_id: i16, frame: SpriteFrame) -> Error {
    Error::Frame { sprite_id, frame: frame.index.0, cause }
}

/// The bytes of a frame, or what is wrong with its pixels as a failure
/// of the rebuild.
pub open spec fn located(r: Result<Seq<u8>, PixelError>, sprite_id: i16, frame: SpriteFrame)
    -> Result<Seq<u8>, Error> {
    match r {
        Ok(bytes) => Ok(bytes),
        Err(cause) => Err(frame_error(cause, sprite_id, frame)),
    }
}

/// Says of which frame the pixels are wrong.
fn locate(cause: PixelError, sprite_id: IffChunkId, frame: &SpriteFrame) -> (e: Error)
    ensures
        e == frame_error(cause, sprite_id.0, *frame),
{
    Error::Frame { sprite_id: sprite_id.as_i16(), frame: frame.index.as_i32(), cause }
}

/// The frame `frame` of a sprite in the modern format, with the pixels of
/// its bounds from the bitmaps of its three channels; or why there is
/// none: bounds that are inverted or negative, a channel that is missing,
/// a bitmap that was not supplied or is not an 8-bit one, or bounds that
/// leave a bitmap.
pub open spec fn spr2_frame_model(frame: SpriteFrame, sprite_id: i16, images: Seq<ChannelImage>)
    -> Result<Spr2FrameModel, Error> {
    let width = frame.bounds_right - frame.bounds_left;
    let height = frame.bounds_bottom - frame.bounds_top;
    let x = frame.bounds_left as int;
    let y = frame.bounds_top as int;
    if width < 0 || height < 0 || x < 0 || y < 0 {
        Err(frame_error(PixelError::Bounds, sprite_id, frame))
    } else {
        match channel_path(frame, SpriteChannelType::Color, sprite_id) {
            Err(e) => Err(e),
            Ok(color_path) => match channel_path(frame, SpriteChannelType::Depth, sprite_id) {
                Err(e) => Err(e),
                Ok(depth_path) => match channel_path(frame, SpriteChannelType::Alpha, sprite_id) {
                    Err(e) => Err(e),
                    Ok(alpha_path) => match indexed_bitmap(images, color_path, sprite_id) {
                        Err(e) => Err(e),
                        Ok(color_bitmap) => match indexed_bitmap(images, depth_path, sprite_id) {
                            Err(e) => Err(e),
                            Ok(depth_bitmap) => match indexed_bitmap(
                                images,
                                alpha_path,
                                sprite_id,
                            ) {
                                Err(e) => Err(e),
                                Ok(alpha_bitmap) => match read_rect(
                                    color_bitmap,
                                    x,
                                    y,
                                    width,
                                    height,
                                ) {
                                    Err(e) => Err(frame_error(e, sprite_id, frame)),
                                    Ok(color) => match read_rect(
                                        depth_bitmap,
                                        x,
                                        y,
                                        width,
                                        height,
                                    ) {
                                        Err(e) => Err(frame_error(e, sprite_id, frame)),
                                        Ok(depth) => match read_rect(
                                            alpha_bitmap,
                                            x,
                                            y,
                                            width,
                                            height,
                                        ) {
                                            Err(e) => Err(frame_error(e, sprite_id, frame)),
                                            Ok(alpha) => Ok(
                                                Spr2FrameModel {
                                                    width: width as u16,
                                                    height: height as u16,
                                                    palette_id: frame.palette_chunk_id.0,
                                                    transparent_color_index:
                                                        frame.transparent_color_index,
                                                    top: y as u16,
                                                    left: x as u16,
                                                    color,
                                                    depth,
                                                    alpha,
                                                },
                                            ),
                                        },
                                    },
                                },
                            },
                        },
                    },
                },
            },
        }
    }
}

/// The frame on the wire, or why it cannot be written.
pub open spec fn spr2_frame_bytes(frame: SpriteFrame, sprite_id: i16, images: Seq<ChannelImage>)
    -> Result<Seq<u8>, Error> {
    match spr2_frame_model(frame, sprite_id, images) {
        Err(e) => Err(e),
        Ok(model) => located(encode_frame(model), sprite_id, frame),
    }
}

/// The pixels of a frame of a sprite in the custom wall style: whatever is
/// not transparent becomes 0.
pub open spec fn wall_style_pixels(pixels: Seq<u8>) -> Seq<u8> {
    Seq::new(
        pixels.len(),
        |i: int|
            if pixels[i] == WALL_STYLE_TRANSPARENT {
                WALL_STYLE_TRANSPARENT
            } else {
                0u8
            },
    )
}

/// The frame `frame` of a sprite in the legacy format on the wire. A
/// sprite in the custom wall style takes its pixels from the depth
/// channel, with 255 as the transparent colour; any other sprite takes
/// them from the colour channel, with the transparent colour of the
/// frame.
pub open spec fn spr1_frame_bytes(
    frame: SpriteFrame,
    custom_wall_style: bool,
    sprite_id: i16,
    images: Seq<ChannelImage>,
) -> Result<Seq<u8>, Error> {
    let channel = if custom_wall_style {
        SpriteChannelType::Depth
    } else {
        SpriteChannelType::Color
    };
    match channel_path(frame, channel, sprite_id) {
        Err(e) => Err(e),
        Ok(path) => match indexed_bitmap(images, path, sprite_id) {
            Err(e) => Err(e),
            Ok(bitmap) => if custom_wall_style {
                located(
                    legacy_frame(
                        wall_style_pixels(bitmap.pixels@),
                        bitmap.width as int,
                        bitmap.height as int,
                        WALL_STYLE_TRANSPARENT,
                    ),
                    sprite_id,
                    frame,
                )
            } else {
                located(
                    legacy_frame(
                        bitmap.pixels@,
                        bitmap.width as int,
                        bitmap.height as int,
                        frame.transparent_color_index,
                    ),
                    sprite_id,
                    frame,
                )
            },
        },
    }
}

/// The frame of `sprite` on the wire, in the format of the sprite.
pub open spec fn frame_bytes(sprite: Sprite, frame: SpriteFrame, images: Seq<ChannelImage>)
    -> Result<Seq<u8>, Error> {
    match sprite.sprite_type {
        SpriteType::Spr1 => spr1_frame_bytes(
            frame,
            sprite.is_custom_wall_style,
            sprite.chunk_id.0,
            images,
        ),
        SpriteType::Spr2 => spr2_frame_bytes(frame, sprite.chunk_id.0, images),
    }
}

/// The first `k` frames of `sprite` on the wire, or the error of the first
/// frame that cannot be written.
pub open spec fn frames_of(sprite: Sprite, images: Seq<ChannelImage>, k: int) -> Result<
    Seq<Seq<u8>>,
    Error,
>
    decreases k,
{
    if k <= 0 {
        Ok(Seq::empty())
    } else {
        match frames_of(sprite, images, k - 1) {
            Err(e) => Err(e),
            Ok(done) => match frame_bytes(sprite, sprite.sprite_frames@[k - 1], images) {
                Err(e) => Err(e),
                Ok(bytes) => Ok(done.push(bytes)),
            },
        }
    }
}

/// The chunk of `sprite`, or why there is none.
///
/// A legacy sprite declares its number of frames itself, which must be the
/// number of frames it has; a modern sprite is written with the number of
/// frames it has.
pub open spec fn sprite_chunk(sprite: Sprite, images: Seq<ChannelImage>) -> Result<
    ChunkModel,
    Error,
> {
    let count = sprite.sprite_frames@.len() as int;
    match frames_of(sprite, images, count) {
        Err(e) => Err(e),
        Ok(frames) => if count > u32::MAX {
            Err(Error::TooLarge { chunk_id: sprite.chunk_id.0 })
        } else if sprite.sprite_type == SpriteType::Spr1 && sprite.sprite_frame_count != count {
            Err(Error::FrameCountMismatch { sprite_id: sprite.chunk_id.0 })
        } else {
            match sprite_payload(
                sprite.chunk_id.0,
                if sprite.sprite_type == SpriteType::Spr1 {
                    SPR1_VERSION
                } else {
                    SPR2_VERSION
                },
                count as u32,
                sprite.palette_chunk_id.0 as i32,
                frames,
            ) {
                Err(e) => Err(e),
                Ok(payload) => new_chunk(
                    if sprite.sprite_type == SpriteType::Spr1 {
                        TAG_SPR1@
                    } else {
                        TAG_SPR2@
                    },
                    sprite.chunk_id.0,
                    encode_utf8(sprite.chunk_label@),
                    payload,
                ),
            }
        },
    }
}

/// Reads the pixels of a frame in the modern format and writes the frame.
pub fn encode_modern_frame(frame: &SpriteFrame, sprite_id: IffChunkId, images: &ImageStore) -> (r:
    Result<Vec<u8>, Error>)
    ensures
        match r {
            Ok(bytes) => spr2_frame_bytes(*frame, sprite_id.0, images.images@) == Ok::<
                Seq<u8>,
                Error,
            >(bytes@),
            Err(e) => spr2_frame_bytes(*frame, sprite_id.0, images.images@) == Err::<
                Seq<u8>,
                Error,
            >(e),
        },
{
    let width = frame.bounds_right as i32 - frame.bounds_left as i32;
    let height = frame.bounds_bottom as i32 - frame.bounds_top as i32;
    if width < 0 || height < 0 || frame.bounds_left < 0 || frame.bounds_top < 0 {
        return Err(locate(PixelError::Bounds, sprite_id, frame));
    }
    let color_path = match frame.sprite_channel_file_path_relative(
        SpriteChannelType::Color,
        sprite_id,
    ) {
        Ok(path) => path,
        Err(e) => {
            return Err(e);
        },
    };
    let depth_path = match frame.sprite_channel_file_path_relative(
        SpriteChannelType::Depth,
        sprite_id,
    ) {
        Ok(path) => path,
        Err(e) => {
            return Err(e);
        },
    };
    let alpha_path = match frame.sprite_channel_file_path_relative(
        SpriteChannelType::Alpha,
        sprite_id,
    ) {
        Ok(path) => path,
        Err(e) => {
            return Err(e);
        },
    };
    let color_bitmap = match read_bmp(images, color_path, sprite_id) {
        Ok(bitmap) => bitmap,
        Err(e) => {
            return Err(e);
        },
    };
    let depth_bitmap = match read_bmp(images, depth_path, sprite_id) {
        Ok(bitmap) => bitmap,
        Err(e) => {
            return Err(e);
        },
    };
    let alpha_bitmap = match read_bmp(images, alpha_path, sprite_id) {
        Ok(bitmap) => bitmap,
        Err(e) => {
            return Err(e);
        },
    };
    let x = frame.bounds_left as u32;
    let y = frame.bounds_top as u32;
    let color = match read_bmp_rect(color_bitmap, x, y, width as u32, height as u32) {
        Ok(pixels) => pixels,
        Err(e) => {
            return Err(locate(e, sprite_id, frame));
        },
    };
    let depth = match read_bmp_rect(depth_bitmap, x, y, width as u32, height as u32) {
        Ok(pixels) => pixels,
        Err(e) => {
            return Err(locate(e, sprite_id, frame));
        },
    };
    let alpha = match read_bmp_rect(alpha_bitmap, x, y, width as u32, height as u32) {
        Ok(pixels) => pixels,
        Err(e) => {
            return Err(locate(e, sprite_id, frame));
        },
    };
    let pixels = Spr2Frame {
        width: width as u16,
        height: height as u16,
        palette_id: frame.palette_chunk_id,
        transparent_color_index: frame.transparent_color_index,
        top: y as u16,
        left: x as u16,
        color,
        depth,
        alpha,
    };
    match encode_spr2_frame(&pixels) {
        Ok(bytes) => Ok(bytes),
        Err(e) => Err(locate(e, sprite_id, frame)),
    }
}

/// Reads the pixels of a frame in the legacy format and writes the frame.
pub fn encode_legacy_frame(
    frame: &SpriteFrame,
    custom_wall_style: bool,
    sprite_id: IffChunkId,
    images: &ImageStore,
) -> (r: Result<Vec<u8>, Error>)
    ensures
        match r {
            Ok(bytes) => spr1_frame_bytes(*frame, custom_wall_style, sprite_id.0, images.images@)
                == Ok::<Seq<u8>, Error>(bytes@),
            Err(e) => spr1_frame_bytes(*frame, custom_wall_style, sprite_id.0, images.images@)
                == Err::<Seq<u8>, Error>(e),
        },
{
    let channel = if custom_wall_style {
        SpriteChannelType::Depth
    } else {
        SpriteChannelType::Color
    };
    let path = match frame.sprite_channel_file_path_relative(channel, sprite_id) {
        Ok(path) => path,
        Err(e) => {
            return Err(e);
        },
    };
    let bitmap = match read_bmp(images, path, sprite_id) {
        Ok(bitmap) => bitmap,
        Err(e) => {
            return Err(e);
        },
    };
    let written = if custom_wall_style {
        let mut pixels: Vec<u8> = Vec::new();
        let mut i: usize = 0;
        while i < bitmap.pixels.len()
            invariant
                i <= bitmap.pixels.len(),
                pixels@.len() == i,
                forall|j: int|
                    0 <= j < i ==> pixels@[j] == wall_style_pixels(bitmap.pixels@)[j],
            decreases bitmap.pixels.len() - i,
        {
            if bitmap.pixels[i] == WALL_STYLE_TRANSPARENT {
                pixels.push(WALL_STYLE_TRANSPARENT);
            } else {
                pixels.push(0);
            }
            i += 1;
        }
        assert(pixels@ =~= wall_style_pixels(bitmap.pixels@));
        encode_spr1_frame(pixels.as_slice(), bitmap.width, bitmap.height, WALL_STYLE_TRANSPARENT)
    } else {
        encode_spr1_frame(
            bitmap.pixels.as_slice(),
            bitmap.width,
            bitmap.height,
            frame.transparent_color_index,
        )
    };
    match written {
        Ok(bytes) => Ok(bytes),
        Err(e) => Err(locate(e, sprite_id, frame)),
    }
}

impl Sprite {
    /// Writes every frame of the sprite in the format of the sprite.
    fn encode_frames(&self, images: &ImageStore) -> (r: Result<Vec<Vec<u8>>, Error>)
        ensures
            match r {
                Ok(frames) => frames_of(
                    *self,
                    images.images@,
                    self.sprite_frames@.len() as int,
                ) == Ok::<Seq<Seq<u8>>, Error>(views(frames@)),
                Err(e) => frames_of(*self, images.images@, self.sprite_frames@.len() as int)
                    == Err::<Seq<Seq<u8>>, Error>(e),
            },
    {
        let mut frames: Vec<Vec<u8>> = Vec::new();
        let mut i: usize = 0;
        assert(views(frames@) =~= Seq::<Seq<u8>>::empty());
        while i < self.sprite_frames.len()
            invariant
                i <= self.sprite_frames.len(),
                frames_of(*self, images.images@, i as int) == Ok::<Seq<Seq<u8>>, Error>(
                    views(frames@),
                ),
            decreases self.sprite_frames.len() - i,
        {
            let ghost done = views(frames@);
            let frame = &self.sprite_frames[i];
            let encoded = match self.sprite_type {
                SpriteType::Spr1 => encode_legacy_frame(
                    frame,
                    self.is_custom_wall_style,
                    self.chunk_id,
                    images,
                ),
                SpriteType::Spr2 => encode_modern_frame(frame, self.chunk_id, images),
            };
            match encoded {
                Ok(bytes) => {
                    frames.push(bytes);
                    assert(views(frames@) =~= done.push(bytes@));
                },
                Err(e) => {
                    proof {
                        lemma_frames_of_err(
                            *self,
                            images.images@,
                            i + 1,
                            self.sprite_frames@.len() as int,
                        );
                    }
                    return Err(e);
                },
            }
            i += 1;
        }
        Ok(frames)
    }

    /// Builds the chunk of the sprite, in the format of the sprite, from
    /// the bitmaps of its frames' channels.
    pub fn to_chunk(&self, images: &ImageStore) -> (r: Result<IffChunk, Error>)
        ensures
            match r {
                Ok(chunk) => sprite_chunk(*self, images.images@) == Ok::<ChunkModel, Error>(
                    chunk@,
                ),
                Err(e) => sprite_chunk(*self, images.images@) == Err::<ChunkModel, Error>(e),
            },
    {
        match self.sprite_type {
            SpriteType::Spr1 => self.to_spr1_chunk(images),
            SpriteType::Spr2 => self.to_spr2_chunk(images),
        }
    }

    /// Builds the chunk of a sprite in the legacy format.
    pub fn to_spr1_chunk(&self, images: &ImageStore) -> (r: Result<IffChunk, Error>)
        requires
            self.sprite_type == SpriteType::Spr1,
        ensures
            match r {
                Ok(chunk) => sprite_chunk(*self, images.images@) == Ok::<ChunkModel, Error>(
                    chunk@,
                ),
                Err(e) => sprite_chunk(*self, images.images@) == Err::<ChunkModel, Error>(e),
            },
    {
        let frames = match self.encode_frames(images) {
            Ok(frames) => frames,
            Err(e) => {
                return Err(e);
            },
        };
        if self.sprite_frames.len() > 0xffff_ffff {
            return Err(Error::TooLarge { chunk_id: self.chunk_id.as_i16() });
        }
        let count = self.sprite_frames.len() as u32;
        if self.sprite_frame_count < 0 || self.sprite_frame_count as u32 != count {
            return Err(Error::FrameCountMismatch { sprite_id: self.chunk_id.as_i16() });
        }
        let payload = match assemble_sprite(
            self.chunk_id,
            SPR1_VERSION,
            count,
            self.palette_chunk_id.as_i32(),
            &frames,
        ) {
            Ok(payload) => payload,
            Err(e) => {
                return Err(e);
            },
        };
        IffChunk::new(&TAG_SPR1, self.chunk_id, self.chunk_label.as_str(), payload)
    }

    /// Builds the chunk of a sprite in the modern format.
    pub fn to_spr2_chunk(&self, images: &ImageStore) -> (r: Result<IffChunk, Error>)
        requires
            self.sprite_type == SpriteType::Spr2,
        ensures
            match r {
                Ok(chunk) => sprite_chunk(*self, images.images@) == Ok::<ChunkModel, Error>(
                    chunk@,
                ),
                Err(e) => sprite_chunk(*self, images.images@) == Err::<ChunkModel, Error>(e),
            },
    {
        let frames = match self.encode_frames(images) {
            Ok(frames) => frames,
            Err(e) => {
                return Err(e);
            },
        };
        if self.sprite_frames.len() > 0xffff_ffff {
            return Err(Error::TooLarge { chunk_id: self.chunk_id.as_i16() });
        }
        let count = self.sprite_frames.len() as u32;
        let payload = match assemble_sprite(
            self.chunk_id,
            SPR2_VERSION,
            count,
            self.palette_chunk_id.as_i32(),
            &frames,
        ) {
            Ok(payload) => payload,
            Err(e) => {
                return Err(e);
            },
        };
        IffChunk::new(&TAG_SPR2, self.chunk_id, self.chunk_label.as_str(), payload)
    }
}

/// Once a frame cannot be written, frames that follow do not change why.
pub proof fn lemma_frames_of_err(sprite: Sprite, images: Seq<ChannelImage>, k: int, n: int)
    requires
        0 <= k <= n,
        frames_of(sprite, images, k) is Err,
    ensures
        frames_of(sprite, images, n) == frames_of(sprite, images, k),
    decreases n - k,
{
    if k < n {
        lemma_frames_of_err(sprite, images, k, n - 1);
    }
}

} // verus!
