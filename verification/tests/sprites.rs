use sims_iff::bitmap::{read_bmp_rect, Bitmap};
use sims_iff::error::{Error, ErrorKind, PixelError};
use sims_iff::iff::IffChunkId;
use sims_iff::spr1::{encode_spr1_frame, encode_spr1_row};
use sims_iff::spr2::{encode_spr2_row, encode_spr2_rows};
use sims_iff::spr2_frame::{decode_spr2_frame, encode_spr2_frame, Spr2Frame};
use sims_iff::sprite::{
    calculate_sprite_image_description, get_sprite_image_description_file_path, Rotation,
    SpriteBounds, SpriteOffsets, ZoomLevel,
};

const T: u8 = 255;

fn frame(width: u16, height: u16, color: Vec<u8>, depth: Vec<u8>, alpha: Vec<u8>) -> Spr2Frame {
    Spr2Frame {
        width,
        height,
        palette_id: IffChunkId::new(5),
        transparent_color_index: 0,
        top: 1,
        left: 2,
        color,
        depth,
        alpha,
    }
}

#[test]
fn legacy_row_with_a_short_repeat_is_a_literal_run() {
    assert_eq!(encode_spr1_row(&[T, T, 5, 5], T), Some(vec![1, 2, 3, 2, 5, 5]));
}

#[test]
fn legacy_frame_of_one_row() {
    let bytes = encode_spr1_frame(&[T, T, 5, 5], 4, 1, T).unwrap();
    assert_eq!(bytes, vec![0, 0, 0, 0, 1, 0, 4, 0, 0, 0, 4, 8, 1, 2, 3, 2, 5, 5, 5, 0]);
}

#[test]
fn legacy_repeat_starts_at_eight_pixels() {
    assert_eq!(encode_spr1_row(&[7; 8], T), Some(vec![2, 8, 7, 0]));
    assert_eq!(encode_spr1_row(&[7; 7], T), Some(vec![3, 7, 7, 7, 7, 7, 7, 7, 7, 0]));
}

#[test]
fn legacy_literal_run_takes_the_first_pixel_of_a_repeat() {
    let mut row = vec![1];
    row.extend_from_slice(&[3; 9]);
    assert_eq!(encode_spr1_row(&row, T), Some(vec![3, 2, 1, 3, 2, 8, 3, 0]));
}

#[test]
fn legacy_literal_values_are_the_pixels_they_stand_for() {
    let row = [1, 2, 2, 2, 5, 6, T, 9];
    assert_eq!(encode_spr1_row(&row, T), Some(vec![3, 6, 1, 2, 2, 2, 5, 6, 1, 1, 3, 1, 9, 0]));
}

#[test]
fn legacy_trailing_transparent_pixels_are_not_written() {
    assert_eq!(encode_spr1_row(&[5, T, T], T), Some(vec![3, 1, 5, 0]));
    assert_eq!(encode_spr1_row(&[T, T, T], T), Some(vec![]));
    assert_eq!(encode_spr1_row(&[], T), Some(vec![]));
}

#[test]
fn legacy_repeat_after_pixels_ends_the_literal_run() {
    let mut row = vec![1, 2];
    row.extend_from_slice(&[4; 9]);
    row.push(6);
    assert_eq!(
        encode_spr1_row(&row, T),
        Some(vec![3, 3, 1, 2, 4, 0, 2, 8, 4, 0, 3, 1, 6, 0])
    );
    let mut short = vec![1, 2];
    short.extend_from_slice(&[4; 8]);
    short.push(6);
    assert_eq!(
        encode_spr1_row(&short, T),
        Some(vec![3, 11, 1, 2, 4, 4, 4, 4, 4, 4, 4, 4, 6, 0])
    );
}

#[test]
fn legacy_blank_frame_is_one_command() {
    let bytes = encode_spr1_frame(&[T; 6], 3, 2, T).unwrap();
    assert_eq!(bytes, vec![0, 0, 0, 0, 2, 0, 3, 0, 0, 0, 9, 2, 5, 0]);
}

#[test]
fn legacy_blank_rows_between_drawn_rows() {
    let pixels = [4, T, T, T, T, T, T, 4];
    let bytes = encode_spr1_frame(&pixels, 2, 4, T).unwrap();
    assert_eq!(
        bytes,
        vec![0, 0, 0, 0, 4, 0, 2, 0, 0, 0, 4, 6, 3, 1, 4, 0, 9, 2, 4, 8, 1, 1, 3, 1, 4, 0, 5, 0]
    );
}

#[test]
fn legacy_blank_rows_beyond_255_take_more_commands() {
    let bytes = encode_spr1_frame(&vec![T; 300], 1, 300, T).unwrap();
    assert_eq!(&bytes[10..], &[9, 255, 9, 45, 5, 0]);
}

#[test]
fn legacy_run_too_long_for_its_length_byte() {
    let mut row = vec![T; 256];
    row.push(1);
    assert_eq!(encode_spr1_row(&row, T), None);
    let error = encode_spr1_frame(&row, 257, 1, T).unwrap_err();
    assert_eq!(error, PixelError::RunTooLong);
    let located = Error::Frame { sprite_id: 1, frame: 0, cause: error };
    assert_eq!(located.kind(), ErrorKind::Codec);
    assert_eq!(encode_spr1_row(&vec![3; 256], T), None);
    let literal: Vec<u8> = (0..256).map(|i| (i % 2) as u8).collect();
    assert_eq!(encode_spr1_row(&literal, T), None);
}

#[test]
fn legacy_frame_needs_a_sample_for_every_pixel() {
    assert_eq!(encode_spr1_frame(&[1, 2, 3], 2, 2, T).unwrap_err(), PixelError::PixelCount);
    assert_eq!(encode_spr1_frame(&[], 70000, 0, T).unwrap_err(), PixelError::Bounds);
}

#[test]
fn modern_row_runs() {
    let color = [9, 8, 7, 6, 5];
    let depth = [1, 2, 3, 4, 5];
    let alpha = [255, 250, 128, 0, 0];
    let body = encode_spr2_row(&color, &depth, &alpha).unwrap();
    assert_eq!(body, vec![0x02, 0x20, 1, 9, 2, 8, 0x01, 0x40, 3, 7, 16, 0]);
}

#[test]
fn modern_transparent_run_inside_a_row_is_written() {
    let body = encode_spr2_row(&[0, 0, 4], &[0, 0, 6], &[0, 7, 248]).unwrap();
    assert_eq!(body, vec![0x02, 0x60, 0x01, 0x20, 6, 4]);
}

#[test]
fn modern_translucent_pairs_need_no_filler() {
    let body = encode_spr2_row(&[1, 2], &[3, 4], &[8, 240]).unwrap();
    assert_eq!(body, vec![0x02, 0x40, 3, 1, 1, 4, 2, 30]);
}

#[test]
fn modern_frame_of_one_row() {
    let bytes = encode_spr2_frame(&frame(2, 1, vec![9, 0], vec![3, 255], vec![255, 0])).unwrap();
    assert_eq!(
        bytes,
        vec![2, 0, 1, 0, 7, 0, 0, 0, 5, 0, 0, 0, 1, 0, 2, 0, 6, 0, 0x01, 0x20, 3, 9, 0x00, 0xa0]
    );
}

#[test]
fn modern_blank_frame_is_one_command() {
    let bytes =
        encode_spr2_frame(&frame(3, 4, vec![0; 12], vec![255; 12], vec![0; 12])).unwrap();
    assert_eq!(&bytes[16..], &[0x04, 0x80, 0x00, 0xa0]);
    let empty = encode_spr2_frame(&frame(0, 0, vec![], vec![], vec![])).unwrap();
    assert_eq!(&empty[16..], &[0x00, 0xa0]);
}

#[test]
fn modern_blank_rows_between_drawn_rows() {
    let alpha = [248, 0, 0, 0, 0, 248];
    let rows = encode_spr2_rows(2, 3, &[1, 0, 0, 0, 0, 2], &[3, 0, 0, 0, 0, 4], &alpha).unwrap();
    assert_eq!(
        rows,
        vec![6, 0, 0x01, 0x20, 3, 1, 0x01, 0x80, 8, 0, 0x01, 0x60, 0x01, 0x20, 4, 2]
    );
}

#[test]
fn modern_frame_round_trip() {
    let original = Spr2Frame {
        width: 4,
        height: 3,
        palette_id: IffChunkId::new(-9),
        transparent_color_index: 17,
        top: 300,
        left: 12,
        color: vec![17, 1, 2, 17, 17, 17, 17, 17, 3, 4, 5, 6],
        depth: vec![255, 10, 20, 255, 255, 255, 255, 255, 30, 40, 50, 60],
        alpha: vec![0, 248, 8, 0, 0, 0, 0, 0, 240, 248, 248, 16],
    };
    let bytes = encode_spr2_frame(&original).unwrap();
    let decoded = decode_spr2_frame(&bytes).unwrap();
    assert_eq!(decoded.width, original.width);
    assert_eq!(decoded.height, original.height);
    assert_eq!(decoded.palette_id, original.palette_id);
    assert_eq!(decoded.transparent_color_index, original.transparent_color_index);
    assert_eq!(decoded.top, original.top);
    assert_eq!(decoded.left, original.left);
    assert_eq!(decoded.color, original.color);
    assert_eq!(decoded.depth, original.depth);
    assert_eq!(decoded.alpha, original.alpha);
}

#[test]
fn modern_decoding_gives_coverage_in_whole_parts() {
    let bytes = encode_spr2_frame(&frame(2, 1, vec![9, 4], vec![3, 2], vec![255, 3])).unwrap();
    let decoded = decode_spr2_frame(&bytes).unwrap();
    assert_eq!(decoded.alpha, vec![248, 0]);
    assert_eq!(decoded.color, vec![9, 0]);
    assert_eq!(decoded.depth, vec![3, 255]);
}

#[test]
fn modern_run_too_long_for_its_length() {
    let n = 8192usize;
    let error = encode_spr2_row(&vec![1; n], &vec![1; n], &vec![255; n]).unwrap_err();
    assert_eq!(error, PixelError::RunTooLong);
    assert!(encode_spr2_row(&vec![1; 4000], &vec![1; 4000], &vec![255; 4000]).is_ok());
    let long_row = encode_spr2_rows(4095, 1, &vec![1; 4095], &vec![1; 4095], &vec![255; 4095]);
    assert_eq!(long_row.unwrap_err(), PixelError::RunTooLong);
    let blank = encode_spr2_frame(&frame(0, 9000, vec![], vec![], vec![])).unwrap_err();
    assert_eq!(blank, PixelError::RunTooLong);
}

#[test]
fn modern_frame_needs_a_sample_for_every_pixel() {
    let error = encode_spr2_frame(&frame(2, 2, vec![0; 4], vec![0; 3], vec![0; 4])).unwrap_err();
    assert_eq!(error, PixelError::PixelCount);
}

#[test]
fn malformed_commands_are_not_decoded() {
    let good = encode_spr2_frame(&frame(2, 1, vec![9, 0], vec![3, 255], vec![248, 0])).unwrap();
    assert!(decode_spr2_frame(&good).is_ok());
    let mut trailing = good.clone();
    trailing.push(0);
    assert_eq!(decode_spr2_frame(&trailing).unwrap_err(), PixelError::MalformedCommands);
    let mut no_length = good.clone();
    no_length[18] = 0;
    assert_eq!(decode_spr2_frame(&no_length).unwrap_err(), PixelError::MalformedCommands);
    let mut too_wide = good.clone();
    too_wide[18] = 3;
    assert_eq!(decode_spr2_frame(&too_wide).unwrap_err(), PixelError::MalformedCommands);
    let mut flags = good.clone();
    flags[4] = 6;
    assert_eq!(decode_spr2_frame(&flags).unwrap_err(), PixelError::MalformedCommands);
    assert_eq!(decode_spr2_frame(&good[..good.len() - 2]).unwrap_err(), PixelError::MalformedCommands);
    assert_eq!(decode_spr2_frame(&good[..10]).unwrap_err(), PixelError::MalformedCommands);
    let mut missing_row = good.clone();
    missing_row[2] = 2;
    assert_eq!(decode_spr2_frame(&missing_row).unwrap_err(), PixelError::MalformedCommands);
    let mut unknown = good.clone();
    unknown[19] = 0xe0;
    assert_eq!(decode_spr2_frame(&unknown).unwrap_err(), PixelError::MalformedCommands);
}

#[test]
fn rectangle_is_copied_row_by_row() {
    let bitmap =
        Bitmap { width: 4, height: 3, pixels: (0..12).collect(), palette: vec![[0, 0, 0]; 256] };
    assert_eq!(read_bmp_rect(&bitmap, 1, 1, 2, 2).unwrap(), vec![5, 6, 9, 10]);
    assert_eq!(read_bmp_rect(&bitmap, 0, 0, 4, 3).unwrap(), bitmap.pixels);
    assert_eq!(read_bmp_rect(&bitmap, 4, 3, 0, 0).unwrap(), Vec::<u8>::new());
    assert_eq!(read_bmp_rect(&bitmap, 3, 0, 2, 1).unwrap_err(), PixelError::Bounds);
    assert_eq!(read_bmp_rect(&bitmap, 0, 2, 1, 2).unwrap_err(), PixelError::Bounds);
    let short = Bitmap { width: 4, height: 3, pixels: vec![0; 11], palette: vec![] };
    assert_eq!(read_bmp_rect(&short, 0, 0, 1, 1).unwrap_err(), PixelError::PixelCount);
}

#[test]
fn bounds_hold_everything_that_is_drawn() {
    let alpha = Bitmap {
        width: 4,
        height: 3,
        pixels: vec![0, 0, 0, 0, 0, 9, 200, 0, 0, 0, 0, 0],
        palette: vec![],
    };
    let description =
        calculate_sprite_image_description(&alpha, ZoomLevel::Zero, IffChunkId::new(4), 13)
            .unwrap();
    assert_eq!(description.width, 4);
    assert_eq!(description.height, 3);
    assert_eq!(description.bounds, SpriteBounds { left: 1, top: 1, right: 3, bottom: 2 });
    assert_eq!(description.offsets, SpriteOffsets { x: -67, y: -346, x_flipped: -67 });
    assert_eq!(description.palette_id, IffChunkId::new(4));
    assert_eq!(description.transparent_color_index, 13);
    let small =
        calculate_sprite_image_description(&alpha, ZoomLevel::Two, IffChunkId::new(4), 13).unwrap();
    assert_eq!(small.offsets, SpriteOffsets { x: -16, y: -85, x_flipped: -16 });
    let medium =
        calculate_sprite_image_description(&alpha, ZoomLevel::One, IffChunkId::new(4), 13).unwrap();
    assert_eq!(medium.offsets, SpriteOffsets { x: -33, y: -172, x_flipped: -33 });
}

#[test]
fn frame_of_which_nothing_is_drawn_has_empty_bounds() {
    let alpha = Bitmap { width: 5, height: 2, pixels: vec![0; 10], palette: vec![] };
    let description =
        calculate_sprite_image_description(&alpha, ZoomLevel::One, IffChunkId::new(4), 13).unwrap();
    assert_eq!(description.width, 0);
    assert_eq!(description.height, 0);
    assert_eq!(description.bounds, SpriteBounds { left: 0, top: 0, right: 0, bottom: 0 });
    assert_eq!(description.offsets, SpriteOffsets { x: 0, y: 0, x_flipped: 0 });
    assert_eq!(description.palette_id, IffChunkId::new(4));
}

#[test]
fn description_needs_a_bitmap_that_holds_its_samples() {
    let alpha = Bitmap { width: 5, height: 2, pixels: vec![1; 9], palette: vec![] };
    assert_eq!(
        calculate_sprite_image_description(&alpha, ZoomLevel::One, IffChunkId::new(4), 13)
            .unwrap_err(),
        PixelError::PixelCount
    );
}

#[test]
fn directions_and_scales_have_names() {
    assert_eq!(Rotation::NorthWest.transmogrify(), Rotation::SouthEast);
    assert_eq!(Rotation::SouthEast.transmogrify(), Rotation::NorthWest);
    assert_eq!(Rotation::NorthEast.transmogrify(), Rotation::NorthEast);
    assert_eq!(Rotation::SouthWest.transmogrify(), Rotation::SouthWest);
    assert_eq!(
        get_sprite_image_description_file_path(ZoomLevel::Zero, Rotation::NorthWest),
        "large_nw description.json"
    );
    assert_eq!(
        get_sprite_image_description_file_path(ZoomLevel::Two, Rotation::SouthEast),
        "small_se description.json"
    );
    assert_eq!(ZoomLevel::One.name(), "medium");
    assert_eq!(Rotation::NorthEast.name(), "ne");
    assert_eq!(Rotation::SouthWest.name(), "sw");
}

#[test]
fn modern_frame_is_read_back_without_what_is_not_drawn() {
    let color = vec![4, 7, 8, 9, 3, 3];
    let depth = vec![1, 2, 3, 4, 5, 6];
    let alpha = vec![3, 255, 250, 9, 7, 0];
    let written = frame(3, 2, color, depth, alpha);
    let bytes = encode_spr2_frame(&written).unwrap();
    let read = decode_spr2_frame(&bytes).unwrap();
    assert_eq!(read.color, vec![0, 7, 8, 9, 0, 0]);
    assert_eq!(read.depth, vec![255, 2, 3, 4, 255, 255]);
    assert_eq!(read.alpha, vec![0, 248, 248, 8, 0, 0]);
    assert_eq!(encode_spr2_frame(&read).unwrap(), bytes);
}

#[test]
fn legacy_repeat_commands_stand_for_eight_pixels_or_more() {
    let mut row = vec![1, 1, 1, 1, 1, 1, 1];
    assert_eq!(encode_spr1_row(&row, T), Some(vec![3, 7, 1, 1, 1, 1, 1, 1, 1, 0]));
    row.push(1);
    assert_eq!(encode_spr1_row(&row, T), Some(vec![2, 8, 1, 0]));
    let mixed = [6, 6, T, 2, 2, 2, 2, 2, 2, 2, 2, 2, 7, 7, 7];
    assert_eq!(
        encode_spr1_row(&mixed, T),
        Some(vec![3, 2, 6, 6, 1, 1, 2, 9, 2, 0, 3, 3, 7, 7, 7, 0])
    );
}
