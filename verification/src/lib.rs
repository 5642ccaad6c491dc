//! Rebuilding of IFF resource archives: the chunk container, the resource
//! directory, the record builders and the two sprite pixel codecs.

pub mod bitmap;
pub mod bytes;
pub mod compiler;
pub mod description_update;
pub mod dgrp;
pub mod draw_group_rotation_adder;
pub mod error;
pub mod guid;
pub mod iff;
pub mod iff_description;
pub mod laws;
pub mod objd;
pub mod palt;
pub mod positions;
pub mod quantizer;
pub mod rebuild;
pub mod rsmp;
pub mod slot;
pub mod splitter;
pub mod spr;
pub mod spr1;
pub mod spr1_decode;
pub mod spr2;
pub mod spr2_frame;
pub mod sprite;
pub mod sprite_chunk;
pub mod text;
pub mod xml_updater;
