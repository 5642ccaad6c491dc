//! Changes to a description before it is built: the variant of an object
//! that the colour bitmaps are taken from.

use crate::error::Error;
use crate::iff_description::IffDescription;
use crate::spr::{channel_at, Sprite, SpriteChannelType, SpriteFrame, SpriteType};
use vstd::prelude::*;
use vstd::string::StringExecFns;

verus! {

/// Whether `pattern` stands at index `i` of `text`.
pub open spec fn occurs_at(text: Seq<char>, pattern: Seq<char>, i: int) -> bool {
    0 <= i && i + pattern.len() <= text.len() && text.subrange(i, i + pattern.len()) == pattern
}

/// Whether `i` is the first index of `text` at which `pattern` stands.
pub open spec fn first_at(text: Seq<char>, pattern: Seq<char>, i: int) -> bool {
    occurs_at(text, pattern, i) && forall|j: int| occurs_at(text, pattern, j) ==> i <= j
}

/// `text` with the first occurrence of `pattern` replaced by `with`, or
/// `text` itself where `pattern` does not occur in it.
pub open spec fn replaced_first(text: Seq<char>, pattern: Seq<char>, with: Seq<char>) -> Seq<
    char,
> {
    if exists|i: int| first_at(text, pattern, i) {
        let i = choose|i: int| first_at(text, pattern, i);
        text.subrange(0, i) + with + text.subrange(i + pattern.len(), text.len() as int)
    } else {
        text
    }
}

/// `str::replacen` of the standard library, with a count of one: the
/// result is `text` with the leftmost occurrence of `pattern` replaced by
/// `with`, and a copy of `text` where there is no occurrence.
#[verifier::external_body]
fn replace_first(text: &str, pattern: &str, with: &str) -> (r: String)
    ensures
        r@ == replaced_first(text@, pattern@, with@),
{
    text.replacen(pattern, with, 1)
}

/// The part of a colour bitmap's path that names the variant `variant`.
pub open spec fn variant_part(variant: Seq<char>) -> Seq<char> {
    " - "@ + variant + " - sprites"@
}

/// Whether `after` is `before` with the variant in the path of its colour
/// channel changed from `from` to `to`, and nothing else changed.
pub open spec fn frame_varied(
    before: SpriteFrame,
    after: SpriteFrame,
    from: Seq<char>,
    to: Seq<char>,
) -> bool {
    &&& channel_at(before.sprite_channels@, SpriteChannelType::Color) matches Some(c)
    &&& after == (SpriteFrame { sprite_channels: after.sprite_channels, ..before })
    &&& after.sprite_channels@.len() == before.sprite_channels@.len()
    &&& forall|k: int|
        0 <= k < before.sprite_channels@.len() && k != c ==> #[trigger] after.sprite_channels@[k]
            == before.sprite_channels@[k]
    &&& after.sprite_channels@[c].channel_type == SpriteChannelType::Color
    &&& after.sprite_channels@[c].file_path_relative@ == replaced_first(
        before.sprite_channels@[c].file_path_relative@,
        variant_part(from),
        variant_part(to),
    )
}

/// Whether `after` is `before` with the variant changed in every frame, if
/// it is a sprite in the modern format, and `before` itself if it is not.
pub open spec fn sprite_varied(before: Sprite, after: Sprite, from: Seq<char>, to: Seq<char>)
    -> bool {
    if before.sprite_type == SpriteType::Spr1 {
        after == before
    } else {
        &&& after == (Sprite { sprite_frames: after.sprite_frames, ..before })
        &&& after.sprite_frames@.len() == before.sprite_frames@.len()
        &&& forall|f: int|
            0 <= f < before.sprite_frames@.len() ==> frame_varied(
                #[trigger] before.sprite_frames@[f],
                after.sprite_frames@[f],
                from,
                to,
            )
    }
}

/// Whether `after` is the sprite `before` with the variant changed in its
/// first `k` frames, and in no other.
pub open spec fn sprite_varied_to(
    before: Sprite,
    after: Sprite,
    from: Seq<char>,
    to: Seq<char>,
    k: int,
) -> bool {
    &&& after == (Sprite { sprite_frames: after.sprite_frames, ..before })
    &&& after.sprite_frames@.len() == before.sprite_frames@.len()
    &&& forall|f: int|
        0 <= f < k ==> frame_varied(
            #[trigger] before.sprite_frames@[f],
            after.sprite_frames@[f],
            from,
            to,
        )
    &&& forall|f: int|
        k <= f < before.sprite_frames@.len() ==> #[trigger] after.sprite_frames@[f]
            == before.sprite_frames@[f]
}

/// Whether `after` is the sprite `before`, in the modern format, as a
/// change of variant leaves it that stopped at frame `k`, the first one
/// without a colour channel: changed in the frames before that one, and in
/// no other.
pub open spec fn sprite_stopped_at(
    before: Sprite,
    after: Sprite,
    from: Seq<char>,
    to: Seq<char>,
    k: int,
) -> bool {
    &&& before.sprite_type == SpriteType::Spr2
    &&& 0 <= k < before.sprite_frames@.len()
    &&& frames_without_color(before, k) is None
    &&& channel_at(before.sprite_frames@[k].sprite_channels@, SpriteChannelType::Color) is None
    &&& sprite_varied_to(before, after, from, to, k)
}

/// The error for the first of the first `k` frames of `sprite` that has
/// no colour channel.
pub open spec fn frames_without_color(sprite: Sprite, k: int) -> Option<Error>
    decreases k,
{
    if k <= 0 {
        None
    } else {
        match frames_without_color(sprite, k - 1) {
            Some(e) => Some(e),
            None => match channel_at(
                sprite.sprite_frames@[k - 1].sprite_channels@,
                SpriteChannelType::Color,
            ) {
                Some(_) => None,
                None => Some(
                    Error::MissingChannel {
                        sprite_id: sprite.chunk_id.0,
                        frame: sprite.sprite_frames@[k - 1].index.0,
                        channel: SpriteChannelType::Color,
                    },
                ),
            },
        }
    }
}

/// The error for the first frame without a colour channel among the frames
/// of those of the first `k` sprites that are in the modern format.
pub open spec fn sprites_without_color(sprites: Seq<Sprite>, k: int) -> Option<Error>
    decreases k,
{
    if k <= 0 {
        None
    } else {
        match sprites_without_color(sprites, k - 1) {
            Some(e) => Some(e),
            None => if sprites[k - 1].sprite_type == SpriteType::Spr1 {
                None
            } else {
                frames_without_color(sprites[k - 1], sprites[k - 1].sprite_frames@.len() as int)
            },
        }
    }
}

/// Once a frame lacks its colour channel, frames that follow do not change
/// which one is reported.
pub proof fn lemma_frames_without_color(sprite: Sprite, k: int, n: int)
    requires
        0 <= k <= n,
        frames_without_color(sprite, k) is Some,
    ensures
        frames_without_color(sprite, n) == frames_without_color(sprite, k),
    decreases n - k,
{
    if k < n {
        lemma_frames_without_color(sprite, k, n - 1);
    }
}

/// The same for the sprites.
pub proof fn lemma_sprites_without_color(sprites: Seq<Sprite>, k: int, n: int)
    requires
        0 <= k <= n,
        sprites_without_color(sprites, k) is Some,
    ensures
        sprites_without_color(sprites, n) == sprites_without_color(sprites, k),
    decreases n - k,
{
    if k < n {
        lemma_sprites_without_color(sprites, k, n - 1);
    }
}

/// Changes the variant in the path of the colour channel of one frame.
fn vary_frame(frame: &mut SpriteFrame, sprite_id: i16, from: &str, to: &str) -> (r: Result<
    (),
    Error,
>)
    ensures
        match r {
            Ok(_) => frame_varied(*old(frame), *final(frame), from@, to@),
            Err(e) => channel_at(old(frame).sprite_channels@, SpriteChannelType::Color) is None
                && e == (Error::MissingChannel {
                    sprite_id,
                    frame: old(frame).index.0,
                    channel: SpriteChannelType::Color,
                })
                && *final(frame) == *old(frame),
        },
{
    let pattern = String::from_str(" - ").concat(from).concat(" - sprites");
    let with = String::from_str(" - ").concat(to).concat(" - sprites");
    match frame.sprite_channel_position(SpriteChannelType::Color) {
        None => Err(
            Error::MissingChannel {
                sprite_id,
                frame: frame.index.as_i32(),
                channel: SpriteChannelType::Color,
            },
        ),
        Some(c) => {
            proof {
                crate::spr::lemma_channel_at(frame.sprite_channels@, SpriteChannelType::Color);
            }
            let path = replace_first(
                frame.sprite_channels[c].file_path_relative.as_str(),
                pattern.as_str(),
                with.as_str(),
            );
            frame.sprite_channels[c].file_path_relative = path;
            Ok(())
        },
    }
}

/// Changes the variant in every frame of a sprite in the modern format.
fn vary_sprite(sprite: &mut Sprite, from: &str, to: &str) -> (r: Result<(), Error>)
    ensures
        match r {
            Ok(_) => sprite_varied(*old(sprite), *final(sprite), from@, to@) && (old(
                sprite,
            ).sprite_type == SpriteType::Spr2 ==> frames_without_color(
                *old(sprite),
                old(sprite).sprite_frames@.len() as int,
            ) is None),
            Err(e) => old(sprite).sprite_type == SpriteType::Spr2 && frames_without_color(
                *old(sprite),
                old(sprite).sprite_frames@.len() as int,
            ) == Some(e) && exists|k: int| #[trigger]
                sprite_stopped_at(*old(sprite), *final(sprite), from@, to@, k),
        },
{
    match sprite.sprite_type {
        SpriteType::Spr1 => {
            return Ok(());
        },
        SpriteType::Spr2 => {},
    }
    let sprite_id = sprite.chunk_id.as_i16();
    let mut f: usize = 0;
    while f < sprite.sprite_frames.len()
        invariant
            f <= sprite.sprite_frames.len(),
            sprite_id == old(sprite).chunk_id.0,
            old(sprite).sprite_type == SpriteType::Spr2,
            *sprite == (Sprite { sprite_frames: sprite.sprite_frames, ..*old(sprite) }),
            sprite.sprite_frames@.len() == old(sprite).sprite_frames@.len(),
            forall|k: int|
                0 <= k < f ==> frame_varied(
                    #[trigger] old(sprite).sprite_frames@[k],
                    sprite.sprite_frames@[k],
                    from@,
                    to@,
                ),
            forall|k: int|
                f <= k < sprite.sprite_frames@.len() ==> #[trigger] sprite.sprite_frames@[k]
                    == old(sprite).sprite_frames@[k],
            frames_without_color(*old(sprite), f as int) is None,
        decreases sprite.sprite_frames.len() - f,
    {
        match vary_frame(&mut sprite.sprite_frames[f], sprite_id, from, to) {
            Ok(_) => {},
            Err(e) => {
                proof {
                    lemma_frames_without_color(
                        *old(sprite),
                        f + 1,
                        old(sprite).sprite_frames@.len() as int,
                    );
                    assert(sprite_stopped_at(*old(sprite), *sprite, from@, to@, f as int));
                }
                return Err(e);
            },
        }
        f += 1;
    }
    Ok(())
}

impl IffDescription {
    /// Whether `after` is this description with the variant changed, from
    /// `from` to `to`, in the paths of the colour bitmaps of all frames of
    /// sprites in the modern format, and nothing else changed.
    pub open spec fn varied(self, after: IffDescription, from: Seq<char>, to: Seq<char>) -> bool {
        &&& after == (IffDescription { sprites: after.sprites, ..self })
        &&& after.sprites.sprites@.len() == self.sprites.sprites@.len()
        &&& forall|s: int|
            0 <= s < self.sprites.sprites@.len() ==> sprite_varied(
                #[trigger] self.sprites.sprites@[s],
                after.sprites.sprites@[s],
                from,
                to,
            )
    }

    /// Whether `after` is this description as a change of variant leaves
    /// it that stopped in the sprite `s`, at the frame `k`: changed in the
    /// sprites before that one and in the frames of that one before frame
    /// `k`, and nowhere else.
    pub open spec fn varied_to(
        self,
        after: IffDescription,
        from: Seq<char>,
        to: Seq<char>,
        s: int,
        k: int,
    ) -> bool {
        &&& after == (IffDescription { sprites: after.sprites, ..self })
        &&& after.sprites.sprites@.len() == self.sprites.sprites@.len()
        &&& 0 <= s < self.sprites.sprites@.len()
        &&& sprites_without_color(self.sprites.sprites@, s) is None
        &&& forall|i: int|
            0 <= i < s ==> sprite_varied(
                #[trigger] self.sprites.sprites@[i],
                after.sprites.sprites@[i],
                from,
                to,
            )
        &&& sprite_stopped_at(self.sprites.sprites@[s], after.sprites.sprites@[s], from, to, k)
        &&& forall|i: int|
            s < i < self.sprites.sprites@.len() ==> #[trigger] after.sprites.sprites@[i]
                == self.sprites.sprites@[i]
    }

    /// Makes the description take its colour bitmaps from another variant
    /// of the object.
    ///
    /// In the path of the colour channel of every frame of every sprite in
    /// the modern format, the first occurrence of the part that names the
    /// variant `variant_original` is replaced by the part that names
    /// `variant_new`. A frame without a colour channel ends the update: the
    /// paths before it are changed then, and those after it are not.
    pub fn update_sprite_variants(&mut self, variant_original: &str, variant_new: &str) -> (r:
        Result<(), Error>)
        ensures
            match r {
                Ok(_) => old(self).varied(*final(self), variant_original@, variant_new@),
                Err(e) => sprites_without_color(
                    old(self).sprites.sprites@,
                    old(self).sprites.sprites@.len() as int,
                ) == Some(e) && exists|s: int, k: int| #[trigger]
                    old(self).varied_to(*final(self), variant_original@, variant_new@, s, k),
            },
            r is Ok <==> sprites_without_color(
                old(self).sprites.sprites@,
                old(self).sprites.sprites@.len() as int,
            ) is None,
    {
        let mut s: usize = 0;
        while s < self.sprites.sprites.len()
            invariant
                s <= self.sprites.sprites.len(),
                *self == (IffDescription { sprites: self.sprites, ..*old(self) }),
                self.sprites.sprites@.len() == old(self).sprites.sprites@.len(),
                forall|k: int|
                    0 <= k < s ==> sprite_varied(
                        #[trigger] old(self).sprites.sprites@[k],
                        self.sprites.sprites@[k],
                        variant_original@,
                        variant_new@,
                    ),
                forall|k: int|
                    s <= k < self.sprites.sprites@.len() ==> #[trigger] self.sprites.sprites@[k]
                        == old(self).sprites.sprites@[k],
                sprites_without_color(old(self).sprites.sprites@, s as int) is None,
            decreases self.sprites.sprites.len() - s,
        {
            match vary_sprite(&mut self.sprites.sprites[s], variant_original, variant_new) {
                Ok(_) => {},
                Err(e) => {
                    proof {
                        lemma_sprites_without_color(
                            old(self).sprites.sprites@,
                            s + 1,
                            old(self).sprites.sprites@.len() as int,
                        );
                        let k = choose|k: int| #[trigger]
                            sprite_stopped_at(
                                old(self).sprites.sprites@[s as int],
                                self.sprites.sprites@[s as int],
                                variant_original@,
                                variant_new@,
                                k,
                            );
                        assert(old(self).varied_to(
                            *self,
                            variant_original@,
                            variant_new@,
                            s as int,
                            k,
                        ));
                    }
                    return Err(e);
                },
            }
            s += 1;
        }
        Ok(())
    }
}

} // verus!
