//! Sprites as the description of an archive holds them: frames, and for
//! each frame the files of its channels.

use crate::error::Error;
use crate::iff::IffChunkId;
use crate::sprite::{Rotation, SpriteImageDescription, ZoomLevel};
use crate::text::{decimal, decimal_text};
use vstd::prelude::*;
use vstd::string::StringExecFns;

verus! {

/// The position of a frame in its sprite.
#[derive(Copy, Clone, Debug, PartialEq, Eq, Structural)]
pub struct SpriteIndex(pub i32);

impl SpriteIndex {
    /// The index with the given number.
    pub fn new(index: i32) -> (r: SpriteIndex)
        ensures
            r.0 == index,
    {
        SpriteIndex(index)
    }

    /// The index as records hold it.
    pub fn as_i32(self) -> (r: i32)
        ensures
            r == self.0,
    {
        self.0
    }
}

/// The pixel format of a sprite: the legacy one with a single plane or the
/// modern one with three.
#[derive(Copy, Clone, Debug, PartialEq, Eq, Structural)]
pub enum SpriteType {
    Spr1,
    Spr2,
}

/// What a channel holds of a frame.
#[derive(Copy, Clone, Debug, PartialEq, Eq, Structural)]
pub enum SpriteChannelType {
    Color,
    Depth,
    Alpha,
}

impl SpriteChannelType {
    /// The name of the channel in messages.
    pub open spec fn spec_name(self) -> Seq<char> {
        match self {
            SpriteChannelType::Color => "color"@,
            SpriteChannelType::Depth => "depth"@,
            SpriteChannelType::Alpha => "alpha"@,
        }
    }

    /// The name of the channel in messages.
    pub fn name(self) -> (s: &'static str)
        ensures
            s@ == self.spec_name(),
    {
        match self {
            SpriteChannelType::Color => "color",
            SpriteChannelType::Depth => "depth",
            SpriteChannelType::Alpha => "alpha",
        }
    }
}

/// One channel of a frame: what it holds and the file that holds it.
#[derive(Debug)]
pub struct SpriteChannel {
    pub channel_type: SpriteChannelType,
    pub file_path_relative: String,
}

/// One frame of a sprite.
#[derive(Debug)]
pub struct SpriteFrame {
    pub index: SpriteIndex,
    pub zoom_level: ZoomLevel,
    pub rotation: Rotation,
    pub bounds_left: i16,
    pub bounds_top: i16,
    pub bounds_right: i16,
    pub bounds_bottom: i16,
    pub width: i16,
    pub height: i16,
    pub palette_chunk_id: IffChunkId,
    pub transparent_color_index: u8,
    pub sprite_channels: Vec<SpriteChannel>,
}

/// A sprite: a chunk of frames in one pixel format.
#[derive(Debug)]
pub struct Sprite {
    pub chunk_label: String,
    pub chunk_id: IffChunkId,
    pub sprite_type: SpriteType,
    pub multi_tile: i32,
    pub palette_chunk_id: IffChunkId,
    pub sprite_frame_count: i32,
    pub is_custom_wall_style: bool,
    pub sprite_frames: Vec<SpriteFrame>,
}

/// The index of the first of `channels` that holds `channel_type`.
pub open spec fn channel_at(channels: Seq<SpriteChannel>, channel_type: SpriteChannelType)
    -> Option<int>
    decreases channels.len(),
{
    if channels.len() == 0 {
        None
    } else if channels[0].channel_type == channel_type {
        Some(0)
    } else {
        match channel_at(channels.drop_first(), channel_type) {
            Some(i) => Some(i + 1),
            None => None,
        }
    }
}

/// An index that was found is that of a channel of the type.
pub proof fn lemma_channel_at(channels: Seq<SpriteChannel>, channel_type: SpriteChannelType)
    ensures
        channel_at(channels, channel_type) matches Some(i) ==> 0 <= i < channels.len()
            && channels[i].channel_type == channel_type,
    decreases channels.len(),
{
    if channels.len() > 0 && channels[0].channel_type != channel_type {
        lemma_channel_at(channels.drop_first(), channel_type);
    }
}

/// The file of the channel of `frame` that holds `channel_type`, or the
/// error that names the sprite and the frame that lack it.
pub open spec fn channel_path(frame: SpriteFrame, channel_type: SpriteChannelType, sprite_id: i16)
    -> Result<Seq<char>, Error> {
    match channel_at(frame.sprite_channels@, channel_type) {
        Some(i) => Ok(frame.sprite_channels@[i].file_path_relative@),
        None => Err(
            Error::MissingChannel { sprite_id, frame: frame.index.0, channel: channel_type },
        ),
    }
}

/// The message for a frame that lacks a channel.
pub open spec fn channel_error_text(channel_type: SpriteChannelType, sprite_id: i16, frame: i32)
    -> Seq<char> {
    "Failed to find "@ + channel_type.spec_name() + " channel in sprite id: "@ + decimal_text(
        sprite_id as int,
    ) + " frame: "@ + decimal_text(frame as int)
}

/// The message for a frame that lacks a channel.
pub fn sprite_channel_error(
    channel_type: SpriteChannelType,
    sprite_id: IffChunkId,
    frame_index: SpriteIndex,
) -> (message: String)
    ensures
        message@ == channel_error_text(channel_type, sprite_id.0, frame_index.0),
{
    let sprite = decimal(sprite_id.as_i32());
    let frame = decimal(frame_index.as_i32());
    String::from_str("Failed to find ").concat(channel_type.name()).concat(
        " channel in sprite id: ",
    ).concat(sprite.as_str()).concat(" frame: ").concat(frame.as_str())
}

impl Sprite {
    /// A sprite in the modern format with the given frames.
    pub fn new(
        chunk_label: &str,
        chunk_id: IffChunkId,
        palette_chunk_id: IffChunkId,
        sprite_frames: Vec<SpriteFrame>,
    ) -> (sprite: Sprite)
        requires
            sprite_frames.len() <= i32::MAX,
        ensures
            sprite.chunk_label@ == chunk_label@,
            sprite.chunk_id == chunk_id,
            sprite.sprite_type == SpriteType::Spr2,
            sprite.multi_tile == 0,
            sprite.palette_chunk_id == palette_chunk_id,
            sprite.sprite_frame_count == sprite_frames.len(),
            !sprite.is_custom_wall_style,
            sprite.sprite_frames == sprite_frames,
    {
        let sprite_frame_count = sprite_frames.len() as i32;
        Sprite {
            chunk_label: String::from_str(chunk_label),
            chunk_id,
            sprite_type: SpriteType::Spr2,
            multi_tile: 0,
            palette_chunk_id,
            sprite_frame_count,
            is_custom_wall_style: false,
            sprite_frames,
        }
    }
}

impl SpriteFrame {
    /// A frame with the measures of `sprite_image_description` and the
    /// three channels of the modern format, in the order colour, depth,
    /// alpha.
    pub fn new(
        index: i32,
        zoom_level: ZoomLevel,
        rotation: Rotation,
        sprite_image_description: &SpriteImageDescription,
        sprite_channel_p_relative_path: &str,
        sprite_channel_z_relative_path: &str,
        sprite_channel_a_relative_path: &str,
    ) -> (frame: SpriteFrame)
        ensures
            frame.index.0 == index,
            frame.zoom_level == zoom_level,
            frame.rotation == rotation,
            frame.bounds_left == sprite_image_description.bounds.left,
            frame.bounds_top == sprite_image_description.bounds.top,
            frame.bounds_right == sprite_image_description.bounds.right,
            frame.bounds_bottom == sprite_image_description.bounds.bottom,
            frame.width == sprite_image_description.width,
            frame.height == sprite_image_description.height,
            frame.palette_chunk_id == sprite_image_description.palette_id,
            frame.transparent_color_index == sprite_image_description.transparent_color_index,
            frame.sprite_channels@.len() == 3,
            frame.sprite_channels@[0].channel_type == SpriteChannelType::Color,
            frame.sprite_channels@[0].file_path_relative@ == sprite_channel_p_relative_path@,
            frame.sprite_channels@[1].channel_type == SpriteChannelType::Depth,
            frame.sprite_channels@[1].file_path_relative@ == sprite_channel_z_relative_path@,
            frame.sprite_channels@[2].channel_type == SpriteChannelType::Alpha,
            frame.sprite_channels@[2].file_path_relative@ == sprite_channel_a_relative_path@,
    {
        let mut sprite_channels: Vec<SpriteChannel> = Vec::new();
        sprite_channels.push(
            SpriteChannel {
                channel_type: SpriteChannelType::Color,
                file_path_relative: String::from_str(sprite_channel_p_relative_path),
            },
        );
        sprite_channels.push(
            SpriteChannel {
                channel_type: SpriteChannelType::Depth,
                file_path_relative: String::from_str(sprite_channel_z_relative_path),
            },
        );
        sprite_channels.push(
            SpriteChannel {
                channel_type: SpriteChannelType::Alpha,
                file_path_relative: String::from_str(sprite_channel_a_relative_path),
            },
        );
        SpriteFrame {
            index: SpriteIndex(index),
            zoom_level,
            rotation,
            bounds_left: sprite_image_description.bounds.left,
            bounds_top: sprite_image_description.bounds.top,
            bounds_right: sprite_image_description.bounds.right,
            bounds_bottom: sprite_image_description.bounds.bottom,
            width: sprite_image_description.width,
            height: sprite_image_description.height,
            palette_chunk_id: sprite_image_description.palette_id,
            transparent_color_index: sprite_image_description.transparent_color_index,
            sprite_channels,
        }
    }

    /// Where the first channel of the given type stands among the
    /// channels.
    pub fn sprite_channel_position(&self, channel_type: SpriteChannelType) -> (r: Option<usize>)
        ensures
            match r {
                Some(i) => channel_at(self.sprite_channels@, channel_type) == Some(i as int) && i
                    < self.sprite_channels@.len(),
                None => channel_at(self.sprite_channels@, channel_type) is None,
            },
    {
        let mut i: usize = 0;
        let ghost all = self.sprite_channels@;
        assert(all.skip(0) =~= all);
        while i < self.sprite_channels.len()
            invariant
                i <= self.sprite_channels.len(),
                all == self.sprite_channels@,
                channel_at(all, channel_type) == match channel_at(
                    all.skip(i as int),
                    channel_type,
                ) {
                    Some(k) => Some(k + i),
                    None => None,
                },
            decreases self.sprite_channels.len() - i,
        {
            assert(all.skip(i as int).drop_first() =~= all.skip(i + 1));
            if self.sprite_channels[i].channel_type == channel_type {
                return Some(i);
            }
            i += 1;
        }
        None
    }

    /// The file of the channel that holds `channel_type`; `sprite_id` names
    /// the sprite in the error for a frame without such a channel.
    pub fn sprite_channel_file_path_relative(
        &self,
        channel_type: SpriteChannelType,
        sprite_id: IffChunkId,
    ) -> (r: Result<&str, Error>)
        ensures
            match r {
                Ok(path) => channel_path(*self, channel_type, sprite_id.0) == Ok::<
                    Seq<char>,
                    Error,
                >(path@),
                Err(e) => channel_path(*self, channel_type, sprite_id.0) == Err::<
                    Seq<char>,
                    Error,
                >(e),
            },
    {
        match self.sprite_channel_position(channel_type) {
            Some(i) => Ok(self.sprite_channels[i].file_path_relative.as_str()),
            None => Err(
                Error::MissingChannel {
                    sprite_id: sprite_id.as_i16(),
                    frame: self.index.as_i32(),
                    channel: channel_type,
                },
            ),
        }
    }

    /// The file name of the channel that holds `channel_type`, to be
    /// changed in place.
    pub fn sprite_channel_file_path_relative_mut(
        &mut self,
        channel_type: SpriteChannelType,
        sprite_id: IffChunkId,
    ) -> (r: Result<&mut String, Error>)
        ensures
            match r {
                Ok(path) => channel_at(old(self).sprite_channels@, channel_type) matches Some(i)
                    && *path == old(self).sprite_channels@[i].file_path_relative && *final(self)
                    == (SpriteFrame {
                    sprite_channels: final(self).sprite_channels,
                    ..*old(self)
                }) && final(self).sprite_channels@ == old(self).sprite_channels@.update(
                    i,
                    SpriteChannel {
                        channel_type: old(self).sprite_channels@[i].channel_type,
                        file_path_relative: *final(path),
                    },
                ),
                Err(e) => channel_path(*old(self), channel_type, sprite_id.0) == Err::<
                    Seq<char>,
                    Error,
                >(e) && *final(self) == *old(self),
            },
    {
        match self.sprite_channel_position(channel_type) {
            Some(i) => Ok(&mut self.sprite_channels[i].file_path_relative),
            None => Err(
                Error::MissingChannel {
                    sprite_id: sprite_id.as_i16(),
                    frame: self.index.as_i32(),
                    channel: channel_type,
                },
            ),
        }
    }
}

} // verus!
