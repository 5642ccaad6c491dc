//! Palettes: the colour tables that the sprites of an archive refer to.

use crate::bitmap::{image_at, Bitmap, ChannelImage, ImageStore};
use crate::bytes::{le_u32, push_repeat, push_u32_le};
use crate::error::Error;
use crate::iff::{models, new_chunk, ChunkModel, IffChunk, IffChunkId, TAG_PALT};
use crate::spr::{channel_path, Sprite, SpriteChannelType};
use vstd::prelude::*;

verus! {

/// How many colours a palette has.
pub const PALT_COLOR_ENTRY_COUNT: u16 = 256;

/// Bytes of the payload of a palette.
pub const PALT_CHUNK_DATA_SIZE: usize = 784;

/// The version of the palette layout that is written.
pub const PALT_VERSION: u32 = 1;

/// The colour that marks the pixels of which nothing is drawn.
pub const PALT_TRANSPARENT_COLOR: [u8; 3] = [255, 255, 0];

/// The index that stands for no palette entry at all.
pub const PALT_INVALID_INDEX: u8 = 255;

/// The colours as bytes: red, green and blue of each, in order.
pub open spec fn palette_bytes(palette: Seq<[u8; 3]>) -> Seq<u8>
    decreases palette.len(),
{
    if palette.len() == 0 {
        Seq::empty()
    } else {
        palette_bytes(palette.drop_last()) + seq![
            palette.last()@[0],
            palette.last()@[1],
            palette.last()@[2],
        ]
    }
}

/// The payload of a palette: the version, the number of colours, eight
/// reserved bytes, and the colours.
pub open spec fn palt_payload(palette: Seq<[u8; 3]>) -> Seq<u8> {
    le_u32(PALT_VERSION) + le_u32(PALT_COLOR_ENTRY_COUNT as u32) + Seq::new(8, |i: int| 0u8)
        + palette_bytes(palette)
}

/// The palette chunk with the id `id` for the colours `palette`, or why
/// there is none: a palette has exactly 256 colours.
pub open spec fn palt_chunk(id: i16, palette: Seq<[u8; 3]>) -> Result<ChunkModel, Error> {
    if palette.len() != 256 {
        Err(Error::PaletteSize { chunk_id: id })
    } else {
        new_chunk(TAG_PALT@, id, Seq::empty(), palt_payload(palette))
    }
}

/// The colours take three bytes each.
pub proof fn lemma_palette_len(palette: Seq<[u8; 3]>)
    ensures
        palette_bytes(palette).len() == 3 * palette.len(),
        palt_payload(palette).len() == 16 + 3 * palette.len(),
    decreases palette.len(),
{
    if palette.len() > 0 {
        lemma_palette_len(palette.drop_last());
    }
}

/// The index of the first colour of `palette`, among its first `n`, that
/// is the one which marks transparent pixels.
pub open spec fn transparent_index(palette: Seq<[u8; 3]>, n: int) -> Option<int>
    decreases n,
{
    if n <= 0 {
        None
    } else {
        match transparent_index(palette, n - 1) {
            Some(i) => Some(i),
            None => if palette[n - 1]@ == PALT_TRANSPARENT_COLOR@ {
                Some(n - 1)
            } else {
                None
            },
        }
    }
}

/// Finds the colour that marks transparent pixels in a palette of up to
/// 256 colours.
pub fn transparent_color_index(palette: &Vec<[u8; 3]>) -> (r: Option<u8>)
    requires
        palette.len() <= 256,
    ensures
        match r {
            Some(i) => transparent_index(palette@, palette@.len() as int) == Some(i as int),
            None => transparent_index(palette@, palette@.len() as int) is None,
        },
{
    let mut i: usize = 0;
    while i < palette.len()
        invariant
            i <= palette.len() <= 256,
            transparent_index(palette@, i as int) is None,
        decreases palette.len() - i,
    {
        let color = &palette[i];
        if color[0] == 255 && color[1] == 255 && color[2] == 0 {
            proof {
                assert(color@ =~= PALT_TRANSPARENT_COLOR@);
                lemma_transparent_index(palette@, i + 1, palette@.len() as int);
            }
            return Some(i as u8);
        }
        assert(color@ != PALT_TRANSPARENT_COLOR@) by {
            if color@ == PALT_TRANSPARENT_COLOR@ {
                assert(color@[0] == 255 && color@[1] == 255 && color@[2] == 0);
            }
        }
        i += 1;
    }
    None
}

/// Once the colour is found, colours that follow do not change where.
pub proof fn lemma_transparent_index(palette: Seq<[u8; 3]>, k: int, n: int)
    requires
        0 <= k <= n,
        transparent_index(palette, k) is Some,
    ensures
        transparent_index(palette, n) == transparent_index(palette, k),
    decreases n - k,
{
    if k < n {
        lemma_transparent_index(palette, k, n - 1);
    }
}

/// Builds the palette chunk with the id `palette_id` from a colour table.
pub fn create_palt_chunk(palette_id: IffChunkId, palette: &Vec<[u8; 3]>) -> (r: Result<
    IffChunk,
    Error,
>)
    ensures
        match r {
            Ok(chunk) => palt_chunk(palette_id.0, palette@) == Ok::<ChunkModel, Error>(chunk@),
            Err(e) => palt_chunk(palette_id.0, palette@) == Err::<ChunkModel, Error>(e),
        },
{
    if palette.len() != 256 {
        return Err(Error::PaletteSize { chunk_id: palette_id.as_i16() });
    }
    let mut data: Vec<u8> = Vec::new();
    push_u32_le(&mut data, PALT_VERSION);
    push_u32_le(&mut data, PALT_COLOR_ENTRY_COUNT as u32);
    push_repeat(&mut data, 0, 8);
    let ghost head = data@;
    let mut i: usize = 0;
    assert(palette@.take(0) =~= Seq::<[u8; 3]>::empty());
    assert(data@ =~= head + palette_bytes(palette@.take(0)));
    while i < palette.len()
        invariant
            i <= palette.len(),
            data@ == head + palette_bytes(palette@.take(i as int)),
        decreases palette.len() - i,
    {
        let color = &palette[i];
        data.push(color[0]);
        data.push(color[1]);
        data.push(color[2]);
        proof {
            assert(palette@.take(i + 1).drop_last() =~= palette@.take(i as int));
            assert(palette@.take(i + 1).last() == palette@[i as int]);
            assert(data@ =~= head + palette_bytes(palette@.take(i + 1)));
        }
        i += 1;
    }
    assert(palette@.take(i as int) =~= palette@);
    let empty: [u8; 0] = [];
    assert(empty@ =~= Seq::<u8>::empty());
    IffChunk::with_label_bytes(&TAG_PALT, palette_id, empty.as_slice(), data)
}

/// The bitmap that the palette of `sprite` is taken from: the one of the
/// colour channel of its first frame.
pub open spec fn palette_bitmap(sprite: Sprite, images: Seq<ChannelImage>) -> Result<
    Bitmap,
    Error,
> {
    if sprite.sprite_frames@.len() == 0 {
        Err(Error::NoFrames { sprite_id: sprite.chunk_id.0 })
    } else {
        match channel_path(sprite.sprite_frames@[0], SpriteChannelType::Color, sprite.chunk_id.0) {
            Err(e) => Err(e),
            Ok(path) => match image_at(images, path) {
                None => Err(Error::MissingPixels { sprite_id: sprite.chunk_id.0 }),
                Some(i) => Ok(images[i].bitmap),
            },
        }
    }
}

/// Whether one of `chunks` has the id `id`.
pub open spec fn has_id(chunks: Seq<ChunkModel>, id: i16) -> bool {
    exists|i: int| 0 <= i < chunks.len() && (#[trigger] chunks[i]).header.id == id
}

/// The palette chunks for the first `k` of `sprites`: one for each palette
/// id, made where the id first occurs; or the error of the first palette
/// that cannot be made.
pub open spec fn palt_chunks(sprites: Seq<Sprite>, images: Seq<ChannelImage>, k: int) -> Result<
    Seq<ChunkModel>,
    Error,
>
    decreases k,
{
    if k <= 0 {
        Ok(Seq::empty())
    } else {
        match palt_chunks(sprites, images, k - 1) {
            Err(e) => Err(e),
            Ok(done) => {
                let sprite = sprites[k - 1];
                if has_id(done, sprite.palette_chunk_id.0) {
                    Ok(done)
                } else {
                    match palette_bitmap(sprite, images) {
                        Err(e) => Err(e),
                        Ok(bitmap) => match palt_chunk(
                            sprite.palette_chunk_id.0,
                            bitmap.palette@,
                        ) {
                            Err(e) => Err(e),
                            Ok(chunk) => Ok(done.push(chunk)),
                        },
                    }
                }
            },
        }
    }
}

/// Once a palette cannot be made, sprites that follow do not change why.
pub proof fn lemma_palt_chunks_err(
    sprites: Seq<Sprite>,
    images: Seq<ChannelImage>,
    k: int,
    n: int,
)
    requires
        0 <= k <= n,
        palt_chunks(sprites, images, k) is Err,
    ensures
        palt_chunks(sprites, images, n) == palt_chunks(sprites, images, k),
    decreases n - k,
{
    if k < n {
        lemma_palt_chunks_err(sprites, images, k, n - 1);
    }
}

/// Whether one of `chunks` has the id `id`.
fn holds_id(chunks: &Vec<IffChunk>, id: IffChunkId) -> (found: bool)
    ensures
        found == has_id(models(chunks@), id.0),
{
    let mut i: usize = 0;
    while i < chunks.len()
        invariant
            i <= chunks.len(),
            forall|j: int| 0 <= j < i ==> (#[trigger] models(chunks@)[j]).header.id != id.0,
        decreases chunks.len() - i,
    {
        if chunks[i].header.id.as_i16() == id.as_i16() {
            assert(models(chunks@)[i as int].header.id == id.0);
            return true;
        }
        i += 1;
    }
    false
}

/// Builds one palette chunk for each palette that the sprites refer to.
///
/// The palettes come in the order in which the sprites first refer to
/// them. Each is the colour table of the bitmap of the colour channel of
/// the first frame of the first sprite that refers to it.
pub fn create_palt_chunks(sprites: &Vec<Sprite>, images: &ImageStore) -> (r: Result<
    Vec<IffChunk>,
    Error,
>)
    ensures
        match r {
            Ok(chunks) => palt_chunks(sprites@, images.images@, sprites@.len() as int) == Ok::<
                Seq<ChunkModel>,
                Error,
            >(models(chunks@)),
            Err(e) => palt_chunks(sprites@, images.images@, sprites@.len() as int) == Err::<
                Seq<ChunkModel>,
                Error,
            >(e),
        },
{
    let mut chunks: Vec<IffChunk> = Vec::new();
    let mut i: usize = 0;
    assert(models(chunks@) =~= Seq::<ChunkModel>::empty());
    while i < sprites.len()
        invariant
            i <= sprites.len(),
            palt_chunks(sprites@, images.images@, i as int) == Ok::<Seq<ChunkModel>, Error>(
                models(chunks@),
            ),
        decreases sprites.len() - i,
    {
        let sprite = &sprites[i];
        let ghost done = models(chunks@);
        if !holds_id(&chunks, sprite.palette_chunk_id) {
            let built = if sprite.sprite_frames.len() == 0 {
                Err(Error::NoFrames { sprite_id: sprite.chunk_id.as_i16() })
            } else {
                match sprite.sprite_frames[0].sprite_channel_file_path_relative(
                    SpriteChannelType::Color,
                    sprite.chunk_id,
                ) {
                    Err(e) => Err(e),
                    Ok(path) => match images.find(path) {
                        None => Err(Error::MissingPixels { sprite_id: sprite.chunk_id.as_i16() }),
                        Some(bitmap) => create_palt_chunk(
                            sprite.palette_chunk_id,
                            &bitmap.palette,
                        ),
                    },
                }
            };
            match built {
                Ok(chunk) => {
                    let ghost c = chunk@;
                    chunks.push(chunk);
                    assert(models(chunks@) =~= done.push(c));
                },
                Err(e) => {
                    proof {
                        lemma_palt_chunks_err(
                            sprites@,
                            images.images@,
                            i + 1,
                            sprites@.len() as int,
                        );
                    }
                    return Err(e);
                },
            }
        }
        i += 1;
    }
    Ok(chunks)
}

} // verus!
