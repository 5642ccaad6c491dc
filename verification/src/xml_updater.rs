//! Bringing the sprites of a description up to date with the sprites that
//! were split into tiles.

use crate::error::Error;
use crate::iff::IffChunkId;
use crate::iff_description::Sprites;
use crate::spr::{Sprite, SpriteFrame};
use crate::sprite::{Rotation, SpriteImageDescription, ZoomLevel};
use vstd::prelude::*;
use vstd::string::StringExecFns;

verus! {

/// The scale of the frame in slot `slot` of a tile: four slots for each
/// scale, from the largest on.
pub open spec fn slot_zoom_level(slot: int) -> ZoomLevel {
    if slot / 4 == 0 {
        ZoomLevel::Zero
    } else if slot / 4 == 1 {
        ZoomLevel::One
    } else {
        ZoomLevel::Two
    }
}

/// The direction of the frame in slot `slot` of a tile: the four
/// directions follow each other, from north-west on, within each scale.
pub open spec fn slot_rotation(slot: int) -> Rotation {
    if slot % 4 == 0 {
        Rotation::NorthWest
    } else if slot % 4 == 1 {
        Rotation::NorthEast
    } else if slot % 4 == 2 {
        Rotation::SouthEast
    } else {
        Rotation::SouthWest
    }
}

/// The file of a channel of the frame in slot `slot`, in the tile
/// directory `directory`: the names of scale and direction and the letter
/// of the channel.
pub open spec fn channel_file(directory: Seq<char>, separator: Seq<char>, slot: int, letter: Seq<
    char,
>) -> Seq<char> {
    directory + separator + slot_zoom_level(slot).spec_name() + "_"@ + slot_rotation(
        slot,
    ).spec_name() + "_"@ + letter + ".bmp"@
}

/// How many of the first `k` slots hold a description.
pub open spec fn described_count(found: Seq<Option<SpriteImageDescription>>, k: int) -> int
    decreases k,
{
    if k <= 0 {
        0
    } else {
        described_count(found, k - 1) + if found[k - 1] is Some {
            1int
        } else {
            0int
        }
    }
}

/// The slot of the frame with the index `index`: the slot with a
/// description before which `index` slots hold one.
pub open spec fn slot_of(found: Seq<Option<SpriteImageDescription>>, index: int, k: int) -> int
    decreases found.len() - k,
{
    if k < 0 || k >= found.len() {
        k
    } else if found[k] is Some && described_count(found, k) == index {
        k
    } else {
        slot_of(found, index, k + 1)
    }
}

/// Whether `frame` is the frame with the index `index` that is made for
/// slot `slot`.
pub open spec fn frame_of_slot(
    frame: SpriteFrame,
    index: int,
    slot: int,
    description: SpriteImageDescription,
    directory: Seq<char>,
    separator: Seq<char>,
) -> bool {
    &&& frame.index.0 == index
    &&& frame.zoom_level == slot_zoom_level(slot)
    &&& frame.rotation == slot_rotation(slot)
    &&& frame.bounds_left == description.bounds.left
    &&& frame.bounds_top == description.bounds.top
    &&& frame.bounds_right == description.bounds.right
    &&& frame.bounds_bottom == description.bounds.bottom
    &&& frame.width == description.width
    &&& frame.height == description.height
    &&& frame.palette_chunk_id == description.palette_id
    &&& frame.transparent_color_index == description.transparent_color_index
    &&& frame.sprite_channels@.len() == 3
    &&& frame.sprite_channels@[0].channel_type == crate::spr::SpriteChannelType::Color
    &&& frame.sprite_channels@[0].file_path_relative@ == channel_file(
        directory,
        separator,
        slot,
        "p"@,
    )
    &&& frame.sprite_channels@[1].channel_type == crate::spr::SpriteChannelType::Depth
    &&& frame.sprite_channels@[1].file_path_relative@ == channel_file(
        directory,
        separator,
        slot,
        "z"@,
    )
    &&& frame.sprite_channels@[2].channel_type == crate::spr::SpriteChannelType::Alpha
    &&& frame.sprite_channels@[2].file_path_relative@ == channel_file(
        directory,
        separator,
        slot,
        "a"@,
    )
}

/// Whether the frame with the index `index` is the one made for the slot
/// which that index has, a described slot before `limit`.
pub open spec fn frame_described(
    frames: Seq<SpriteFrame>,
    found: Seq<Option<SpriteImageDescription>>,
    index: int,
    limit: int,
    directory: Seq<char>,
    separator: Seq<char>,
) -> bool {
    let slot = slot_of(found, index, 0);
    &&& 0 <= slot < limit
    &&& found[slot] is Some
    &&& frame_of_slot(frames[index], index, slot, found[slot]->Some_0, directory, separator)
}

/// The scale of a slot.
fn zoom_level_of(slot: usize) -> (zoom_level: ZoomLevel)
    ensures
        zoom_level == slot_zoom_level(slot as int),
{
    match slot / 4 {
        0 => ZoomLevel::Zero,
        1 => ZoomLevel::One,
        _ => ZoomLevel::Two,
    }
}

/// The direction of a slot.
fn rotation_of(slot: usize) -> (rotation: Rotation)
    ensures
        rotation == slot_rotation(slot as int),
{
    match slot % 4 {
        0 => Rotation::NorthWest,
        1 => Rotation::NorthEast,
        2 => Rotation::SouthEast,
        _ => Rotation::SouthWest,
    }
}

/// The file of a channel of the frame in a slot.
fn channel_file_path(directory: &str, separator: &str, slot: usize, letter: &str) -> (path: String)
    ensures
        path@ == channel_file(directory@, separator@, slot as int, letter@),
{
    String::from_str(directory).concat(separator).concat(zoom_level_of(slot).name()).concat(
        "_",
    ).concat(rotation_of(slot).name()).concat("_").concat(letter).concat(".bmp")
}

/// Describes the sprite of one tile from the frame descriptions that were
/// found in the directory of the tile.
///
/// `found` holds what was found for each scale and direction, the scales
/// from the largest on and within each scale the directions from
/// north-west on. The sprite has one frame for each description that was
/// found, in that order, numbered from zero, with the three channels of
/// the modern format in files named after scale, direction and channel.
/// Its palette is that of its first frame; with no frame at all there is
/// no sprite.
pub fn build_sprite_description(
    directory: &str,
    separator: &str,
    chunk_label: &str,
    chunk_id: IffChunkId,
    found: &Vec<Option<SpriteImageDescription>>,
) -> (r: Result<Sprite, Error>)
    requires
        found.len() <= 12,
    ensures
        match r {
            Ok(sprite) => {
                &&& described_count(found@, found@.len() as int) > 0
                &&& sprite.chunk_label@ == chunk_label@
                &&& sprite.chunk_id == chunk_id
                &&& sprite.sprite_type == crate::spr::SpriteType::Spr2
                &&& sprite.multi_tile == 0
                &&& !sprite.is_custom_wall_style
                &&& sprite.sprite_frame_count == sprite.sprite_frames@.len()
                &&& sprite.sprite_frames@.len() == described_count(found@, found@.len() as int)
                &&& sprite.palette_chunk_id == sprite.sprite_frames@[0].palette_chunk_id
                &&& forall|index: int|
                    0 <= index < sprite.sprite_frames@.len() ==> #[trigger] frame_described(
                        sprite.sprite_frames@,
                        found@,
                        index,
                        found@.len() as int,
                        directory@,
                        separator@,
                    )
            },
            Err(e) => e == (Error::NoDescribedFrames { sprite_id: chunk_id.0 }) && described_count(
                found@,
                found@.len() as int,
            ) == 0,
        },
{
    let mut frames: Vec<SpriteFrame> = Vec::new();
    let mut slot: usize = 0;
    while slot < found.len()
        invariant
            slot <= found.len() <= 12,
            frames@.len() <= slot,
            frames@.len() == described_count(found@, slot as int),
            forall|index: int|
                0 <= index < frames@.len() ==> #[trigger] frame_described(
                    frames@,
                    found@,
                    index,
                    slot as int,
                    directory@,
                    separator@,
                ),
        decreases found.len() - slot,
    {
        match &found[slot] {
            None => {
                assert forall|i: int| 0 <= i < frames@.len() implies #[trigger] frame_described(
                    frames@,
                    found@,
                    i,
                    slot + 1,
                    directory@,
                    separator@,
                ) by {
                    assert(frame_described(frames@, found@, i, slot as int, directory@, separator@));
                }
            },
            Some(description) => {
                let p = channel_file_path(directory, separator, slot, "p");
                let z = channel_file_path(directory, separator, slot, "z");
                let a = channel_file_path(directory, separator, slot, "a");
                let index = frames.len() as i32;
                let ghost before = frames@;
                let frame = SpriteFrame::new(
                    index,
                    zoom_level_of(slot),
                    rotation_of(slot),
                    description,
                    p.as_str(),
                    z.as_str(),
                    a.as_str(),
                );
                assert(frame_of_slot(
                    frame,
                    index as int,
                    slot as int,
                    found@[slot as int]->Some_0,
                    directory@,
                    separator@,
                ));
                frames.push(frame);
                proof {
                    lemma_slot_of(found@, index as int, slot as int);
                    assert forall|i: int| 0 <= i < frames@.len() implies #[trigger] frame_described(
                        frames@,
                        found@,
                        i,
                        slot + 1,
                        directory@,
                        separator@,
                    ) by {
                        if i < before.len() {
                            assert(frame_described(
                                before,
                                found@,
                                i,
                                slot as int,
                                directory@,
                                separator@,
                            ));
                            assert(frames@[i] == before[i]);
                        } else {
                            assert(frames@[i] == frame);
                        }
                    }
                }
            },
        }
        slot += 1;
    }
    if frames.len() == 0 {
        return Err(Error::NoDescribedFrames { sprite_id: chunk_id.as_i16() });
    }
    let palette = frames[0].palette_chunk_id;
    Ok(Sprite::new(chunk_label, chunk_id, palette, frames))
}

/// The described slot before which `index` slots are described is the one
/// that a search from the first slot on finds for `index`.
pub proof fn lemma_slot_of(found: Seq<Option<SpriteImageDescription>>, index: int, slot: int)
    requires
        0 <= slot < found.len(),
        found[slot] is Some,
        described_count(found, slot) == index,
    ensures
        slot_of(found, index, 0) == slot,
{
    lemma_slot_of_from(found, index, slot, 0);
}

/// The same for a search that starts at slot `k`.
pub proof fn lemma_slot_of_from(
    found: Seq<Option<SpriteImageDescription>>,
    index: int,
    slot: int,
    k: int,
)
    requires
        0 <= k <= slot < found.len(),
        found[slot] is Some,
        described_count(found, slot) == index,
    ensures
        slot_of(found, index, k) == slot,
    decreases slot - k,
{
    if k < slot {
        lemma_described_grows(found, k, slot);
        if found[k] is Some {
            lemma_described_grows(found, k + 1, slot);
        }
        lemma_slot_of_from(found, index, slot, k + 1);
    }
}

/// The number of described slots does not fall as more slots are counted.
pub proof fn lemma_described_grows(found: Seq<Option<SpriteImageDescription>>, k: int, n: int)
    requires
        0 <= k <= n,
    ensures
        described_count(found, k) <= described_count(found, n),
    decreases n - k,
{
    if k < n {
        lemma_described_grows(found, k, n - 1);
    }
}

/// Whether one of `sprites` has the id `id`.
pub open spec fn holds_sprite(sprites: Seq<Sprite>, id: i16) -> bool {
    exists|i: int| 0 <= i < sprites.len() && (#[trigger] sprites[i]).chunk_id.0 == id
}

/// Where a sprite with the id `id` is put into the first `n` of sprites
/// that are in the order of their ids: after the last of them whose id is
/// not larger.
pub open spec fn place_for(sorted: Seq<Sprite>, id: i16, n: int) -> int
    decreases n,
{
    if n <= 0 {
        0
    } else if sorted[n - 1].chunk_id.0 <= id {
        n
    } else {
        place_for(sorted, id, n - 1)
    }
}

/// The place is inside the sprites, everything before it has an id that is
/// not larger, and, where the sprites are in order, everything from it on
/// has a larger one.
pub proof fn lemma_place_for(sorted: Seq<Sprite>, id: i16, n: int)
    requires
        0 <= n <= sorted.len(),
    ensures
        0 <= place_for(sorted, id, n) <= n,
        place_for(sorted, id, n) > 0 ==> sorted[place_for(sorted, id, n) - 1].chunk_id.0 <= id,
        forall|j: int| place_for(sorted, id, n) <= j < n ==> (#[trigger] sorted[j]).chunk_id.0 > id,
    decreases n,
{
    if n > 0 && sorted[n - 1].chunk_id.0 > id {
        lemma_place_for(sorted, id, n - 1);
    }
}

/// Whether the sprites are in the order of their ids.
pub open spec fn in_id_order(sprites: Seq<Sprite>) -> bool {
    forall|i: int, j: int|
        0 <= i < j < sprites.len() ==> (#[trigger] sprites[i]).chunk_id.0 <= (
        #[trigger] sprites[j]).chunk_id.0
}

/// The first `k` of `sprites` in the order of their ids, sprites with one
/// id in the order in which they stand in `sprites`.
pub open spec fn by_id(sprites: Seq<Sprite>, k: int) -> Seq<Sprite>
    decreases k,
{
    if k <= 0 {
        Seq::empty()
    } else {
        let sorted = by_id(sprites, k - 1);
        sorted.insert(place_for(sorted, sprites[k - 1].chunk_id.0, sorted.len() as int), sprites[k
            - 1])
    }
}

/// Sorted sprites are in the order of their ids, and they are the sprites
/// that were sorted, each as often as it stood among them.
pub proof fn lemma_by_id(sprites: Seq<Sprite>, k: int)
    requires
        0 <= k <= sprites.len(),
    ensures
        by_id(sprites, k).len() == k,
        in_id_order(by_id(sprites, k)),
        by_id(sprites, k).to_multiset() == sprites.take(k).to_multiset(),
    decreases k,
{
    if k > 0 {
        lemma_by_id(sprites, k - 1);
        let sorted = by_id(sprites, k - 1);
        let s = sprites[k - 1];
        let at = place_for(sorted, s.chunk_id.0, sorted.len() as int);
        lemma_place_for(sorted, s.chunk_id.0, sorted.len() as int);
        let next = sorted.insert(at, s);
        assert forall|i: int, j: int| 0 <= i < j < next.len() implies (
        #[trigger] next[i]).chunk_id.0 <= (#[trigger] next[j]).chunk_id.0 by {
            if j < at {
                assert(next[i] == sorted[i] && next[j] == sorted[j]);
            } else if j == at {
                assert(next[i] == sorted[i]);
                if at > 0 {
                    assert(sorted[i].chunk_id.0 <= sorted[at - 1].chunk_id.0 || i == at - 1);
                }
            } else if i < at {
                assert(next[i] == sorted[i] && next[j] == sorted[j - 1]);
            } else if i == at {
                assert(next[j] == sorted[j - 1]);
                assert(sorted[j - 1].chunk_id.0 > s.chunk_id.0);
            } else {
                assert(next[i] == sorted[i - 1] && next[j] == sorted[j - 1]);
            }
        }
        assert(sprites.take(k) =~= sprites.take(k - 1).push(s));
        vstd::seq_lib::to_multiset_build(sprites.take(k - 1), s);
        vstd::seq_lib::to_multiset_insert(sorted, at, s);
    } else {
        assert(sprites.take(k) =~= by_id(sprites, k));
    }
}

/// Those of the first `k` of `sprites` that have none of the ids of
/// `replacing`, in their order.
pub open spec fn not_replaced(sprites: Seq<Sprite>, replacing: Seq<Sprite>, k: int) -> Seq<Sprite>
    decreases k,
{
    if k <= 0 {
        Seq::empty()
    } else if holds_sprite(replacing, sprites[k - 1].chunk_id.0) {
        not_replaced(sprites, replacing, k - 1)
    } else {
        not_replaced(sprites, replacing, k - 1).push(sprites[k - 1])
    }
}

/// The id that two of the first `k` sprites share, of the first sprite
/// that shares its id with one before it.
pub open spec fn shared_id(sprites: Seq<Sprite>, k: int) -> Option<i16>
    decreases k,
{
    if k <= 0 {
        None
    } else {
        match shared_id(sprites, k - 1) {
            Some(id) => Some(id),
            None => if holds_sprite(sprites.take(k - 1), sprites[k - 1].chunk_id.0) {
                Some(sprites[k - 1].chunk_id.0)
            } else {
                None
            },
        }
    }
}

/// The sprites of a description after `added` took the place of the
/// sprites with their ids: what is left of `sprites`, followed by `added`,
/// in the order of the ids.
pub open spec fn merged(sprites: Seq<Sprite>, added: Seq<Sprite>) -> Seq<Sprite> {
    let all = not_replaced(sprites, added, sprites.len() as int) + added;
    by_id(all, all.len() as int)
}

/// Whether one of `sprites` has the id `id`.
fn has_sprite_id(sprites: &Vec<Sprite>, n: usize, id: i16) -> (found: bool)
    requires
        n <= sprites.len(),
    ensures
        found == holds_sprite(sprites@.take(n as int), id),
{
    let mut i: usize = 0;
    while i < n
        invariant
            i <= n <= sprites.len(),
            forall|j: int| 0 <= j < i ==> (#[trigger] sprites@.take(n as int)[j]).chunk_id.0 != id,
        decreases n - i,
    {
        if sprites[i].chunk_id.as_i16() == id {
            assert(sprites@.take(n as int)[i as int].chunk_id.0 == id);
            return true;
        }
        i += 1;
    }
    false
}

/// Once two sprites share an id, sprites that follow do not change which
/// id is reported.
pub proof fn lemma_shared_id(sprites: Seq<Sprite>, k: int, n: int)
    requires
        0 <= k <= n,
        shared_id(sprites, k) is Some,
    ensures
        shared_id(sprites, n) == shared_id(sprites, k),
    decreases n - k,
{
    if k < n {
        lemma_shared_id(sprites, k, n - 1);
    }
}

/// Puts new sprites into a description.
///
/// The sprites of the description that have the id of a new sprite are
/// dropped, the new sprites are added, and all are put in the order of
/// their ids; sprites with one id stay in the order in which they stood.
/// The new sprites cannot share an id among themselves.
pub fn merge_sprites(sprites: &mut Sprites, new_sprites: Vec<Sprite>) -> (r: Result<(), Error>)
    ensures
        match r {
            Ok(_) => shared_id(new_sprites@, new_sprites@.len() as int) is None
                && final(sprites).sprites@ == merged(old(sprites).sprites@, new_sprites@),
            Err(e) => shared_id(new_sprites@, new_sprites@.len() as int) matches Some(id) && e
                == (Error::DuplicateSpriteId { chunk_id: id }) && *final(sprites) == *old(sprites),
        },
{
    let mut k: usize = 0;
    while k < new_sprites.len()
        invariant
            k <= new_sprites.len(),
            shared_id(new_sprites@, k as int) is None,
        decreases new_sprites.len() - k,
    {
        let id = new_sprites[k].chunk_id.as_i16();
        if has_sprite_id(&new_sprites, k, id) {
            proof {
                lemma_shared_id(new_sprites@, k + 1, new_sprites@.len() as int);
            }
            return Err(Error::DuplicateSpriteId { chunk_id: id });
        }
        k += 1;
    }
    let ghost before = sprites.sprites@;
    let ghost added = new_sprites@;
    let mut old_sprites: Vec<Sprite> = Vec::new();
    std::mem::swap(&mut sprites.sprites, &mut old_sprites);
    let mut all: Vec<Sprite> = Vec::new();
    let ghost total = old_sprites@.len();
    assert(all@ =~= not_replaced(before, added, 0));
    while old_sprites.len() > 0
        invariant
            total == before.len(),
            added == new_sprites@,
            old_sprites@.len() <= total,
            old_sprites@ == before.skip(total - old_sprites@.len()),
            all@ == not_replaced(before, added, total - old_sprites@.len()),
        decreases old_sprites.len(),
    {
        let ghost done = total - old_sprites@.len();
        let ghost kept = all@;
        let sprite = old_sprites.remove(0);
        assert(sprite == before[done]);
        assert(old_sprites@ =~= before.skip(done + 1));
        proof {
            assert(new_sprites@.take(new_sprites@.len() as int) =~= new_sprites@);
        }
        if !has_sprite_id(&new_sprites, new_sprites.len(), sprite.chunk_id.as_i16()) {
            all.push(sprite);
        }
    }
    let mut new_sprites = new_sprites;
    all.append(&mut new_sprites);
    let ghost unsorted = all@;
    assert(unsorted == not_replaced(before, added, before.len() as int) + added);
    let mut sorted: Vec<Sprite> = Vec::new();
    let ghost count = all@.len();
    assert(sorted@ =~= by_id(unsorted, 0));
    while all.len() > 0
        invariant
            count == unsorted.len(),
            all@.len() <= count,
            all@ == unsorted.skip(count - all@.len()),
            sorted@ == by_id(unsorted, count - all@.len()),
        decreases all.len(),
    {
        let ghost done = count - all@.len();
        let sprite = all.remove(0);
        assert(sprite == unsorted[done]);
        assert(all@ =~= unsorted.skip(done + 1));
        let id = sprite.chunk_id.as_i16();
        let mut at: usize = sorted.len();
        proof {
            lemma_by_id(unsorted, done);
        }
        while at > 0 && sorted[at - 1].chunk_id.as_i16() > id
            invariant
                at <= sorted.len(),
                place_for(sorted@, id, sorted@.len() as int) == place_for(sorted@, id, at as int),
            decreases at,
        {
            at -= 1;
        }
        sorted.insert(at, sprite);
    }
    sprites.sprites = sorted;
    Ok(())
}

} // verus!
