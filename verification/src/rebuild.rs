//! The rebuild of an archive: what is kept of the archive that is read,
//! what is built anew from the description, and how the two are put
//! together.

use crate::bitmap::{ChannelImage, ImageStore};
use crate::dgrp::{dgrp_chunk, DrawGroup};
use crate::error::Error;
use crate::guid::{
    guid_conflict, guid_of, guid_table, lemma_misaligned_none, map_guids, misaligned_code,
    patched_chunks, rebuild_guid_map, replace_guids_in_bhavs, GuidEntry, GuidMap,
};
use crate::iff::{
    all_wf, chunks_size, lemma_first_defect, lemma_new_chunk_wf, models, parse_iff,
    read_iff_file, same_tag, write_iff_file, ChunkModel, Iff, IffChunk, IffChunkId, IffModel,
    TAG_DGRP, TAG_OBJD, TAG_PALT, TAG_RSMP, TAG_SLOT, TAG_SPR1, TAG_SPR2,
};
use crate::iff_description::IffDescription;
use crate::objd::{objd_chunk, ObjectDefinition};
use crate::palt::{create_palt_chunks, palt_chunks};
use crate::rsmp::{create_rsmp_chunk, directory_chunk, lemma_directory_wf, lemma_size_grows};
use crate::slot::{slot_chunk, Slot};
use crate::spr::{Sprite, SpriteType};
use crate::sprite_chunk::sprite_chunk;
use vstd::prelude::*;

verus! {

/// Whether chunks of the type `tag` are built anew by a rebuild: draw
/// groups, object definitions, palettes, slots, sprites of both formats
/// and the directory.
pub open spec fn is_replaceable(tag: Seq<u8>) -> bool {
    tag == TAG_DGRP@ || tag == TAG_OBJD@ || tag == TAG_PALT@ || tag == TAG_SLOT@ || tag
        == TAG_SPR1@ || tag == TAG_SPR2@ || tag == TAG_RSMP@
}

/// Whether chunks of the type `tag` are built anew by a rebuild.
pub fn replaceable(tag: &[u8; 4]) -> (r: bool)
    ensures
        r == is_replaceable(tag@),
{
    same_tag(tag, &TAG_DGRP) || same_tag(tag, &TAG_OBJD) || same_tag(tag, &TAG_PALT) || same_tag(
        tag,
        &TAG_SLOT,
    ) || same_tag(tag, &TAG_SPR1) || same_tag(tag, &TAG_SPR2) || same_tag(tag, &TAG_RSMP)
}

/// Those of the first `n` chunks that a rebuild keeps, in their order.
pub open spec fn kept_chunks(chunks: Seq<ChunkModel>, n: int) -> Seq<ChunkModel>
    decreases n,
{
    if n <= 0 {
        Seq::empty()
    } else if is_replaceable(chunks[n - 1].header.tag) {
        kept_chunks(chunks, n - 1)
    } else {
        kept_chunks(chunks, n - 1).push(chunks[n - 1])
    }
}

/// The chunk of the object definition `definition`, with the GUID that
/// `output` gives its id; an error where `output` gives it none.
pub open spec fn rebuilt_objd(definition: ObjectDefinition, output: Seq<GuidEntry>) -> Result<
    ChunkModel,
    Error,
> {
    match guid_of(output, definition.chunk_id.0) {
        None => Err(Error::MissingGuid { chunk_id: definition.chunk_id.0 }),
        Some(guid) => objd_chunk(definition, Some(guid)),
    }
}

/// The chunks of the first `k` object definitions, or the first error.
pub open spec fn objd_chunks(definitions: Seq<ObjectDefinition>, output: Seq<GuidEntry>, k: int)
    -> Result<Seq<ChunkModel>, Error>
    decreases k,
{
    if k <= 0 {
        Ok(Seq::empty())
    } else {
        match objd_chunks(definitions, output, k - 1) {
            Err(e) => Err(e),
            Ok(done) => match rebuilt_objd(definitions[k - 1], output) {
                Err(e) => Err(e),
                Ok(chunk) => Ok(done.push(chunk)),
            },
        }
    }
}

/// The chunks of the first `k` slot records, or the first error.
pub open spec fn slot_chunks(slots: Seq<Slot>, k: int) -> Result<Seq<ChunkModel>, Error>
    decreases k,
{
    if k <= 0 {
        Ok(Seq::empty())
    } else {
        match slot_chunks(slots, k - 1) {
            Err(e) => Err(e),
            Ok(done) => match slot_chunk(slots[k - 1]) {
                Err(e) => Err(e),
                Ok(chunk) => Ok(done.push(chunk)),
            },
        }
    }
}

/// The chunks of the first `k` draw groups, or the first error.
pub open spec fn dgrp_chunks(groups: Seq<DrawGroup>, k: int) -> Result<Seq<ChunkModel>, Error>
    decreases k,
{
    if k <= 0 {
        Ok(Seq::empty())
    } else {
        match dgrp_chunks(groups, k - 1) {
            Err(e) => Err(e),
            Ok(done) => match dgrp_chunk(groups[k - 1]) {
                Err(e) => Err(e),
                Ok(chunk) => Ok(done.push(chunk)),
            },
        }
    }
}

/// Whether an item of a draw group shows a frame of the sprite `id`.
pub open spec fn sprite_used(groups: Seq<DrawGroup>, id: i16) -> bool {
    exists|g: int, l: int, i: int|
        0 <= g < groups.len() && 0 <= l < groups[g].draw_group_item_lists@.len() && 0 <= i
            < groups[g].draw_group_item_lists@[l].draw_group_items@.len()
            && #[trigger] groups[g].draw_group_item_lists@[l].draw_group_items@[i].sprite_chunk_id.0
            == id
}

/// Whether a rebuild writes the sprite: a sprite in the modern format is
/// written only where a draw group shows it, one in the legacy format
/// always.
pub open spec fn sprite_written(sprite: Sprite, groups: Seq<DrawGroup>) -> bool {
    sprite.sprite_type == SpriteType::Spr1 || sprite_used(groups, sprite.chunk_id.0)
}

/// The chunks of those of the first `k` sprites that are written, or the
/// first error.
pub open spec fn sprite_chunks(
    sprites: Seq<Sprite>,
    groups: Seq<DrawGroup>,
    images: Seq<ChannelImage>,
    k: int,
) -> Result<Seq<ChunkModel>, Error>
    decreases k,
{
    if k <= 0 {
        Ok(Seq::empty())
    } else {
        match sprite_chunks(sprites, groups, images, k - 1) {
            Err(e) => Err(e),
            Ok(done) => if !sprite_written(sprites[k - 1], groups) {
                Ok(done)
            } else {
                match sprite_chunk(sprites[k - 1], images) {
                    Err(e) => Err(e),
                    Ok(chunk) => Ok(done.push(chunk)),
                }
            },
        }
    }
}

/// The chunks that a rebuild builds from the description, in the order
/// object definitions, slots, draw groups, palettes, sprites; or the first
/// error in that order.
#[verifier::opaque]
pub open spec fn built_chunks(
    description: IffDescription,
    output: Seq<GuidEntry>,
    images: Seq<ChannelImage>,
) -> Result<Seq<ChunkModel>, Error> {
    let definitions = description.object_definitions.object_definitions@;
    let slots = description.slots.slots@;
    let groups = description.draw_groups.draw_groups@;
    let sprites = description.sprites.sprites@;
    match objd_chunks(definitions, output, definitions.len() as int) {
        Err(e) => Err(e),
        Ok(a) => match slot_chunks(slots, slots.len() as int) {
            Err(e) => Err(e),
            Ok(b) => match dgrp_chunks(groups, groups.len() as int) {
                Err(e) => Err(e),
                Ok(c) => match palt_chunks(sprites, images, sprites.len() as int) {
                    Err(e) => Err(e),
                    Ok(d) => match sprite_chunks(sprites, groups, images, sprites.len() as int) {
                        Err(e) => Err(e),
                        Ok(f) => Ok(a + b + c + d + f),
                    },
                },
            },
        },
    }
}

/// The archive of the chunks `all`, gathered for a rebuild from a table
/// `input_guids` to a table `output_guids`: the GUID operands of all
/// bytecode are rewritten, the directory of the chunks comes last, and the
/// preamble holds where the directory starts. An error where bytecode is
/// not a whole number of instructions, or where there is no directory.
pub open spec fn finished(
    all: Seq<ChunkModel>,
    input_guids: Seq<GuidEntry>,
    output_guids: Seq<GuidEntry>,
) -> Result<IffModel, Error> {
    match misaligned_code(all) {
        Some(e) => Err(e),
        None => {
            let patched = patched_chunks(all, input_guids, output_guids);
            match directory_chunk(patched) {
                Err(e) => Err(e),
                Ok(directory) => Ok(
                    IffModel {
                        rsmp_address: (64 + chunks_size(patched)) as u32,
                        chunks: patched.push(directory),
                    },
                ),
            }
        },
    }
}

/// The archive that a rebuild gives from the chunks `source` of the
/// archive that is rebuilt and the chunks `target` of the archive that the
/// result replaces; or why there is none.
pub open spec fn rebuilt_from(
    description: IffDescription,
    images: Seq<ChannelImage>,
    source: Seq<ChunkModel>,
    target: Seq<ChunkModel>,
    same_file: bool,
) -> Result<IffModel, Error> {
    match guid_table(source) {
        Err(e) => Err(e),
        Ok(input_guids) => match guid_table(target) {
            Err(e) => Err(e.in_output()),
            Ok(output_guids) => match guid_conflict(input_guids, output_guids, same_file) {
                Some(e) => Err(e),
                None => match built_chunks(description, output_guids, images) {
                    Err(e) => Err(e),
                    Ok(built) => finished(
                        kept_chunks(source, source.len() as int) + built,
                        input_guids,
                        output_guids,
                    ),
                },
            },
        },
    }
}

/// The archive that a rebuild of the archive `input` gives, from the
/// description and the bitmaps, where the result replaces the archive
/// `output`; or why there is none.
///
/// The chunks of `input` of types that are not built anew are kept in
/// their order, the chunks built from the description follow them, the
/// GUID operands of all bytecode are rewritten from the GUIDs of `input`
/// to those of `output`, and the directory of all these chunks comes
/// last; the preamble holds where the directory starts.
pub open spec fn rebuilt_archive(
    description: IffDescription,
    images: Seq<ChannelImage>,
    input: Seq<u8>,
    output: Seq<u8>,
    same_file: bool,
) -> Result<IffModel, Error> {
    match parse_iff(input) {
        Err(e) => Err(e),
        Ok(source) => match parse_iff(output) {
            Err(e) => Err(e.in_output()),
            Ok(target) => rebuilt_from(description, images, source.chunks, target.chunks, same_file),
        },
    }
}

/// The file that a rebuild gives, or why there is none.
pub open spec fn rebuilt(
    description: IffDescription,
    images: Seq<ChannelImage>,
    input: Seq<u8>,
    output: Seq<u8>,
    same_file: bool,
) -> Result<Seq<u8>, Error> {
    match rebuilt_archive(description, images, input, output, same_file) {
        Err(e) => Err(e),
        Ok(archive) => Ok(archive.bytes()),
    }
}

/// Once an object definition cannot be built, definitions that follow do
/// not change why.
pub proof fn lemma_objd_chunks_err(
    definitions: Seq<ObjectDefinition>,
    output: Seq<GuidEntry>,
    k: int,
    n: int,
)
    requires
        0 <= k <= n,
        objd_chunks(definitions, output, k) is Err,
    ensures
        objd_chunks(definitions, output, n) == objd_chunks(definitions, output, k),
    decreases n - k,
{
    if k < n {
        lemma_objd_chunks_err(definitions, output, k, n - 1);
    }
}

/// Once a slot record cannot be built, records that follow do not change
/// why.
pub proof fn lemma_slot_chunks_err(slots: Seq<Slot>, k: int, n: int)
    requires
        0 <= k <= n,
        slot_chunks(slots, k) is Err,
    ensures
        slot_chunks(slots, n) == slot_chunks(slots, k),
    decreases n - k,
{
    if k < n {
        lemma_slot_chunks_err(slots, k, n - 1);
    }
}

/// Once a draw group cannot be built, groups that follow do not change
/// why.
pub proof fn lemma_dgrp_chunks_err(groups: Seq<DrawGroup>, k: int, n: int)
    requires
        0 <= k <= n,
        dgrp_chunks(groups, k) is Err,
    ensures
        dgrp_chunks(groups, n) == dgrp_chunks(groups, k),
    decreases n - k,
{
    if k < n {
        lemma_dgrp_chunks_err(groups, k, n - 1);
    }
}

/// Once a sprite cannot be built, sprites that follow do not change why.
pub proof fn lemma_sprite_chunks_err(
    sprites: Seq<Sprite>,
    groups: Seq<DrawGroup>,
    images: Seq<ChannelImage>,
    k: int,
    n: int,
)
    requires
        0 <= k <= n,
        sprite_chunks(sprites, groups, images, k) is Err,
    ensures
        sprite_chunks(sprites, groups, images, n) == sprite_chunks(sprites, groups, images, k),
    decreases n - k,
{
    if k < n {
        lemma_sprite_chunks_err(sprites, groups, images, k, n - 1);
    }
}

/// Copies the chunks that a rebuild keeps.
pub fn keep_chunks(chunks: &Vec<IffChunk>) -> (kept: Vec<IffChunk>)
    ensures
        models(kept@) == kept_chunks(models(chunks@), chunks@.len() as int),
{
    let mut kept: Vec<IffChunk> = Vec::new();
    let mut i: usize = 0;
    let ghost all = models(chunks@);
    assert(models(kept@) =~= kept_chunks(all, 0));
    while i < chunks.len()
        invariant
            i <= chunks.len(),
            all == models(chunks@),
            models(kept@) == kept_chunks(all, i as int),
        decreases chunks.len() - i,
    {
        let ghost done = models(kept@);
        assert(all[i as int] == chunks@[i as int]@);
        if !replaceable(&chunks[i].header.chunk_type) {
            kept.push(chunks[i].clone());
            assert(models(kept@) =~= done.push(all[i as int]));
        }
        i += 1;
    }
    kept
}

/// Whether an item of a draw group shows a frame of the sprite `id`.
pub fn uses_sprite(groups: &Vec<DrawGroup>, id: IffChunkId) -> (used: bool)
    ensures
        used == sprite_used(groups@, id.0),
{
    let mut g: usize = 0;
    while g < groups.len()
        invariant
            g <= groups.len(),
            forall|a: int, l: int, i: int|
                0 <= a < g && 0 <= l < groups@[a].draw_group_item_lists@.len() && 0 <= i
                    < groups@[a].draw_group_item_lists@[l].draw_group_items@.len()
                    ==> #[trigger] groups@[a].draw_group_item_lists@[l].draw_group_items@[i].sprite_chunk_id.0
                    != id.0,
        decreases groups.len() - g,
    {
        let lists = &groups[g].draw_group_item_lists;
        let mut l: usize = 0;
        while l < lists.len()
            invariant
                l <= lists.len(),
                g < groups.len(),
                lists@ == groups@[g as int].draw_group_item_lists@,
                forall|b: int, i: int|
                    0 <= b < l && 0 <= i < lists@[b].draw_group_items@.len()
                        ==> #[trigger] lists@[b].draw_group_items@[i].sprite_chunk_id.0 != id.0,
            decreases lists.len() - l,
        {
            let items = &lists[l].draw_group_items;
            let mut i: usize = 0;
            while i < items.len()
                invariant
                    i <= items.len(),
                    g < groups.len(),
                    l < lists.len(),
                    lists@ == groups@[g as int].draw_group_item_lists@,
                    items@ == lists@[l as int].draw_group_items@,
                    forall|c: int| 0 <= c < i ==> (#[trigger] items@[c]).sprite_chunk_id.0 != id.0,
                decreases items.len() - i,
            {
                if items[i].sprite_chunk_id.as_i16() == id.as_i16() {
                    assert(groups@[g as int].draw_group_item_lists@[l as int].draw_group_items@[i as int].sprite_chunk_id.0
                        == id.0);
                    return true;
                }
                i += 1;
            }
            l += 1;
        }
        g += 1;
    }
    false
}

/// The models of two lists of chunks, one after the other, are the models
/// of the lists joined.
pub proof fn lemma_models_concat(a: Seq<IffChunk>, b: Seq<IffChunk>)
    ensures
        models(a + b) == models(a) + models(b),
{
    assert(models(a + b) =~= models(a) + models(b));
}

/// Builds the chunks of the object definitions.
fn build_objd_chunks(definitions: &Vec<ObjectDefinition>, output_guids: &GuidMap) -> (r: Result<
    Vec<IffChunk>,
    Error,
>)
    ensures
        match r {
            Ok(chunks) => objd_chunks(definitions@, output_guids@, definitions@.len() as int)
                == Ok::<Seq<ChunkModel>, Error>(models(chunks@)),
            Err(e) => objd_chunks(definitions@, output_guids@, definitions@.len() as int) == Err::<
                Seq<ChunkModel>,
                Error,
            >(e),
        },
{
    let mut chunks: Vec<IffChunk> = Vec::new();
    let mut i: usize = 0;
    assert(models(chunks@) =~= Seq::<ChunkModel>::empty());
    while i < definitions.len()
        invariant
            i <= definitions.len(),
            objd_chunks(definitions@, output_guids@, i as int) == Ok::<Seq<ChunkModel>, Error>(
                models(chunks@),
            ),
        decreases definitions.len() - i,
    {
        let ghost done = models(chunks@);
        let built = match output_guids.get(definitions[i].chunk_id) {
            None => Err(Error::MissingGuid { chunk_id: definitions[i].chunk_id.as_i16() }),
            Some(guid) => definitions[i].to_chunk(Some(guid)),
        };
        match built {
            Ok(chunk) => {
                let ghost c = chunk@;
                chunks.push(chunk);
                assert(models(chunks@) =~= done.push(c));
            },
            Err(e) => {
                proof {
                    lemma_objd_chunks_err(
                        definitions@,
                        output_guids@,
                        i + 1,
                        definitions@.len() as int,
                    );
                }
                return Err(e);
            },
        }
        i += 1;
    }
    Ok(chunks)
}

/// Builds the chunks of the slot records.
fn build_slot_chunks(slots: &Vec<Slot>) -> (r: Result<Vec<IffChunk>, Error>)
    ensures
        match r {
            Ok(chunks) => slot_chunks(slots@, slots@.len() as int) == Ok::<
                Seq<ChunkModel>,
                Error,
            >(models(chunks@)),
            Err(e) => slot_chunks(slots@, slots@.len() as int) == Err::<Seq<ChunkModel>, Error>(e),
        },
{
    let mut chunks: Vec<IffChunk> = Vec::new();
    let mut i: usize = 0;
    assert(models(chunks@) =~= Seq::<ChunkModel>::empty());
    while i < slots.len()
        invariant
            i <= slots.len(),
            slot_chunks(slots@, i as int) == Ok::<Seq<ChunkModel>, Error>(models(chunks@)),
        decreases slots.len() - i,
    {
        let ghost done = models(chunks@);
        match slots[i].to_chunk() {
            Ok(chunk) => {
                let ghost c = chunk@;
                chunks.push(chunk);
                assert(models(chunks@) =~= done.push(c));
            },
            Err(e) => {
                proof {
                    lemma_slot_chunks_err(slots@, i + 1, slots@.len() as int);
                }
                return Err(e);
            },
        }
        i += 1;
    }
    Ok(chunks)
}

/// Builds the chunks of the draw groups.
fn build_dgrp_chunks(groups: &Vec<DrawGroup>) -> (r: Result<Vec<IffChunk>, Error>)
    ensures
        match r {
            Ok(chunks) => dgrp_chunks(groups@, groups@.len() as int) == Ok::<
                Seq<ChunkModel>,
                Error,
            >(models(chunks@)),
            Err(e) => dgrp_chunks(groups@, groups@.len() as int) == Err::<Seq<ChunkModel>, Error>(
                e,
            ),
        },
{
    let mut chunks: Vec<IffChunk> = Vec::new();
    let mut i: usize = 0;
    assert(models(chunks@) =~= Seq::<ChunkModel>::empty());
    while i < groups.len()
        invariant
            i <= groups.len(),
            dgrp_chunks(groups@, i as int) == Ok::<Seq<ChunkModel>, Error>(models(chunks@)),
        decreases groups.len() - i,
    {
        let ghost done = models(chunks@);
        match groups[i].to_chunk() {
            Ok(chunk) => {
                let ghost c = chunk@;
                chunks.push(chunk);
                assert(models(chunks@) =~= done.push(c));
            },
            Err(e) => {
                proof {
                    lemma_dgrp_chunks_err(groups@, i + 1, groups@.len() as int);
                }
                return Err(e);
            },
        }
        i += 1;
    }
    Ok(chunks)
}

/// Builds the chunks of the sprites that are written.
fn build_sprite_chunks(sprites: &Vec<Sprite>, groups: &Vec<DrawGroup>, images: &ImageStore) -> (r:
    Result<Vec<IffChunk>, Error>)
    ensures
        match r {
            Ok(chunks) => sprite_chunks(
                sprites@,
                groups@,
                images.images@,
                sprites@.len() as int,
            ) == Ok::<Seq<ChunkModel>, Error>(models(chunks@)),
            Err(e) => sprite_chunks(sprites@, groups@, images.images@, sprites@.len() as int)
                == Err::<Seq<ChunkModel>, Error>(e),
        },
{
    let mut chunks: Vec<IffChunk> = Vec::new();
    let mut i: usize = 0;
    assert(models(chunks@) =~= Seq::<ChunkModel>::empty());
    while i < sprites.len()
        invariant
            i <= sprites.len(),
            sprite_chunks(sprites@, groups@, images.images@, i as int) == Ok::<
                Seq<ChunkModel>,
                Error,
            >(models(chunks@)),
        decreases sprites.len() - i,
    {
        let ghost done = models(chunks@);
        let sprite = &sprites[i];
        let written = match sprite.sprite_type {
            SpriteType::Spr1 => true,
            SpriteType::Spr2 => uses_sprite(groups, sprite.chunk_id),
        };
        if written {
            match sprite.to_chunk(images) {
                Ok(chunk) => {
                    let ghost f = chunk@;
                    chunks.push(chunk);
                    assert(models(chunks@) =~= done.push(f));
                },
                Err(e) => {
                    proof {
                        lemma_sprite_chunks_err(
                            sprites@,
                            groups@,
                            images.images@,
                            i + 1,
                            sprites@.len() as int,
                        );
                    }
                    return Err(e);
                },
            }
        }
        i += 1;
    }
    Ok(chunks)
}

/// Moves the chunks of `more` to the end of `chunks`.
fn append_chunks(chunks: &mut Vec<IffChunk>, more: Vec<IffChunk>)
    ensures
        models(final(chunks)@) == models(old(chunks)@) + models(more@),
{
    let mut more = more;
    proof {
        lemma_models_concat(chunks@, more@);
    }
    chunks.append(&mut more);
}

/// Builds the chunks of the description and appends them to `chunks`.
fn build_chunks(
    chunks: &mut Vec<IffChunk>,
    description: &IffDescription,
    output_guids: &GuidMap,
    images: &ImageStore,
) -> (r: Result<(), Error>)
    ensures
        match r {
            Ok(_) => built_chunks(*description, output_guids@, images.images@) matches Ok(built)
                && models(final(chunks)@) == models(old(chunks)@) + built,
            Err(e) => built_chunks(*description, output_guids@, images.images@) == Err::<
                Seq<ChunkModel>,
                Error,
            >(e),
        },
{
    reveal(built_chunks);
    let ghost base = models(chunks@);
    let a = match build_objd_chunks(
        &description.object_definitions.object_definitions,
        output_guids,
    ) {
        Ok(a) => a,
        Err(e) => {
            return Err(e);
        },
    };
    let b = match build_slot_chunks(&description.slots.slots) {
        Ok(b) => b,
        Err(e) => {
            return Err(e);
        },
    };
    let c = match build_dgrp_chunks(&description.draw_groups.draw_groups) {
        Ok(c) => c,
        Err(e) => {
            return Err(e);
        },
    };
    let d = match create_palt_chunks(&description.sprites.sprites, images) {
        Ok(d) => d,
        Err(e) => {
            return Err(e);
        },
    };
    let f = match build_sprite_chunks(
        &description.sprites.sprites,
        &description.draw_groups.draw_groups,
        images,
    ) {
        Ok(f) => f,
        Err(e) => {
            return Err(e);
        },
    };
    let ghost ma = models(a@);
    let ghost mb = models(b@);
    let ghost mc = models(c@);
    let ghost md = models(d@);
    let ghost mf = models(f@);
    append_chunks(chunks, a);
    append_chunks(chunks, b);
    append_chunks(chunks, c);
    append_chunks(chunks, d);
    append_chunks(chunks, f);
    assert(models(chunks@) =~= base + (ma + mb + mc + md + mf));
    Ok(())
}

/// The sizes of the chunks, added up.
fn total_size(chunks: &Vec<IffChunk>) -> (total: u32)
    requires
        64 + chunks_size(models(chunks@)) <= u32::MAX,
        all_wf(models(chunks@)),
    ensures
        total == 64 + chunks_size(models(chunks@)),
{
    let ghost all = models(chunks@);
    let mut total: u32 = 64;
    let mut i: usize = 0;
    assert(all.take(0) =~= Seq::<ChunkModel>::empty());
    while i < chunks.len()
        invariant
            i <= chunks.len(),
            all == models(chunks@),
            64 + chunks_size(all) <= u32::MAX,
            total == 64 + chunks_size(all.take(i as int)),
        decreases chunks.len() - i,
    {
        proof {
            assert(all.take(i + 1).drop_last() =~= all.take(i as int));
            assert(all.take(i + 1).last() == chunks@[i as int]@);
            lemma_size_grows(all.take(i + 1), all.skip(i + 1));
            assert(all.take(i + 1) + all.skip(i + 1) =~= all);
        }
        total = total + chunks[i].header.size;
        i += 1;
    }
    assert(all.take(i as int) =~= all);
    total
}

/// Rewrites the bytecode of the gathered chunks, appends their directory
/// and writes the archive.
fn finish(chunks: Vec<IffChunk>, input_guids: &GuidMap, output_guids: &GuidMap) -> (r: Result<
    Vec<u8>,
    Error,
>)
    ensures
        match r {
            Ok(bytes) => finished(models(chunks@), input_guids@, output_guids@) matches Ok(archive)
                && bytes@ == archive.bytes(),
            Err(e) => finished(models(chunks@), input_guids@, output_guids@) == Err::<
                IffModel,
                Error,
            >(e),
        },
{
    let mut chunks = chunks;
    match replace_guids_in_bhavs(&mut chunks, input_guids, output_guids) {
        Ok(_) => {},
        Err(e) => {
            return Err(e);
        },
    }
    let directory = match create_rsmp_chunk(&chunks) {
        Ok(chunk) => chunk,
        Err(e) => {
            return Err(e);
        },
    };
    proof {
        lemma_directory_wf(models(chunks@));
    }
    let rsmp_address = total_size(&chunks);
    let ghost patched = models(chunks@);
    let ghost d = directory@;
    chunks.push(directory);
    assert(models(chunks@) =~= patched.push(d));
    assert forall|i: int| 0 <= i < models(chunks@).len() implies (#[trigger] models(
        chunks@,
    )[i]).wf() by {
        if i < patched.len() {
            assert(patched[i].wf());
        }
    }
    let archive = Iff { rsmp_address, chunks };
    match write_iff_file(&archive) {
        Ok(bytes) => Ok(bytes),
        Err(e) => Err(e),
    }
}

/// Reads the GUID tables of the two archives, checks them against each
/// other, gathers the chunks and finishes the archive.
fn rebuild_from(
    iff_description: &IffDescription,
    images: &ImageStore,
    source: &Vec<IffChunk>,
    target: &Vec<IffChunk>,
    same_file: bool,
) -> (r: Result<Vec<u8>, Error>)
    ensures
        match r {
            Ok(bytes) => rebuilt_from(
                *iff_description,
                images.images@,
                models(source@),
                models(target@),
                same_file,
            ) matches Ok(archive) && bytes@ == archive.bytes(),
            Err(e) => rebuilt_from(
                *iff_description,
                images.images@,
                models(source@),
                models(target@),
                same_file,
            ) == Err::<IffModel, Error>(e),
        },
{
    let input_guids = match map_guids(source.as_slice()) {
        Ok(guids) => guids,
        Err(e) => {
            return Err(e);
        },
    };
    let output_guids = match map_guids(target.as_slice()) {
        Ok(guids) => guids,
        Err(e) => {
            return Err(e.in_output());
        },
    };
    match rebuild_guid_map(&input_guids, &output_guids, same_file) {
        Ok(_) => {},
        Err(e) => {
            return Err(e);
        },
    }
    let mut chunks = keep_chunks(source);
    match build_chunks(&mut chunks, iff_description, &output_guids, images) {
        Ok(_) => {},
        Err(e) => {
            return Err(e);
        },
    }
    finish(chunks, &input_guids, &output_guids)
}

/// Rebuilds an archive.
///
/// `input_iff` is the file that is rebuilt and `output_iff` the file that
/// the result replaces; `same_file` says whether the two are one file. The
/// result is the new content of that file. Both archives must define the
/// same objects, and a different file must carry at least one other GUID.
/// Chunks of types that are built anew are dropped from the input and
/// built from the description, with the bitmaps of `images` for the
/// palettes and sprites, in the order object definitions, slots, draw
/// groups, palettes, sprites; a sprite in the modern format that no draw
/// group shows is left out. Every other chunk of the input is kept as it
/// is, but for GUID operands in bytecode, which are rewritten to the GUIDs
/// of the output. The directory is built from the chunks so gathered and
/// appended, and the preamble is written with the place of the directory.
pub fn rebuild_iff_file(
    iff_description: &IffDescription,
    images: &ImageStore,
    input_iff: &[u8],
    output_iff: &[u8],
    same_file: bool,
) -> (r: Result<Vec<u8>, Error>)
    ensures
        match r {
            Ok(bytes) => rebuilt(*iff_description, images.images@, input_iff@, output_iff@, same_file)
                == Ok::<Seq<u8>, Error>(bytes@),
            Err(e) => rebuilt(*iff_description, images.images@, input_iff@, output_iff@, same_file)
                == Err::<Seq<u8>, Error>(e),
        },
{
    let source = match read_iff_file(input_iff) {
        Ok(iff) => iff,
        Err(e) => {
            return Err(e);
        },
    };
    let target = match read_iff_file(output_iff) {
        Ok(iff) => iff,
        Err(e) => {
            return Err(e.in_output());
        },
    };
    rebuild_from(iff_description, images, &source.chunks, &target.chunks, same_file)
}

} // verus!
