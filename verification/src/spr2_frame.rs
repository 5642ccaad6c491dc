//! Frames of the modern pixel format as values: writing a frame with its
//! header, and reading one back.

use crate::bytes::{
    i16_of_bits, push_all, push_i16_le, push_u16_le, push_u32_le, read_i16_le, read_u16_le,
    read_u32_le, u16_le_at,
};
use crate::error::PixelError;
use crate::iff::IffChunkId;
use crate::spr2::{
    blank_pixels, command_of, decode_frame, decode_row, decode_rows, encode_frame,
    encode_spr2_rows, length_of, opaque_pixels, translucent_coverages, translucent_pixels, Pixels,
    Spr2FrameModel, SPR2_BLANK_DEPTH, SPR2_END, SPR2_FRAME_FLAGS, SPR2_OPAQUE, SPR2_START,
    SPR2_TRANSLUCENT, SPR2_TRANSPARENT, SPR2_TRANSPARENT_ROWS,
};
use vstd::prelude::*;
use vstd::slice::slice_subrange;

verus! {

/// One frame in the modern format: what its header says, and its three
/// planes of `width * height` samples each, rows from the top down.
#[derive(Debug)]
pub struct Spr2Frame {
    pub width: u16,
    pub height: u16,
    pub palette_id: IffChunkId,
    pub transparent_color_index: u8,
    pub top: u16,
    pub left: u16,
    pub color: Vec<u8>,
    pub depth: Vec<u8>,
    pub alpha: Vec<u8>,
}

impl View for Spr2Frame {
    type V = Spr2FrameModel;

    open spec fn view(&self) -> Spr2FrameModel {
        Spr2FrameModel {
            width: self.width,
            height: self.height,
            palette_id: self.palette_id.0,
            transparent_color_index: self.transparent_color_index,
            top: self.top,
            left: self.left,
            color: self.color@,
            depth: self.depth@,
            alpha: self.alpha@,
        }
    }
}

/// Writes a frame: its header, the commands of its rows, and the command
/// that ends it.
///
/// Every plane must hold a sample for every pixel, and no run, row or
/// count of rows may be longer than a command can say.
pub fn encode_spr2_frame(frame: &Spr2Frame) -> (r: Result<Vec<u8>, PixelError>)
    ensures
        match r {
            Ok(bytes) => encode_frame(frame@) == Ok::<Seq<u8>, PixelError>(bytes@),
            Err(e) => encode_frame(frame@) == Err::<Seq<u8>, PixelError>(e),
        },
{
    let width = frame.width as usize;
    let height = frame.height as usize;
    assert(width * height <= 0xffff * 0xffff) by (nonlinear_arith)
        requires
            width <= 0xffff,
            height <= 0xffff,
    ;
    let count = width * height;
    if frame.color.len() != count || frame.depth.len() != count || frame.alpha.len() != count {
        return Err(PixelError::PixelCount);
    }
    let body = match encode_spr2_rows(
        width,
        height,
        frame.color.as_slice(),
        frame.depth.as_slice(),
        frame.alpha.as_slice(),
    ) {
        Ok(body) => body,
        Err(e) => {
            return Err(e);
        },
    };
    let mut out: Vec<u8> = Vec::new();
    push_u16_le(&mut out, frame.width);
    push_u16_le(&mut out, frame.height);
    push_u32_le(&mut out, SPR2_FRAME_FLAGS);
    push_i16_le(&mut out, frame.palette_id.as_i16());
    push_u16_le(&mut out, frame.transparent_color_index as u16);
    push_u16_le(&mut out, frame.top);
    push_u16_le(&mut out, frame.left);
    assert(out@ =~= frame@.header());
    push_all(&mut out, body.as_slice());
    push_u16_le(&mut out, SPR2_END * 8192);
    assert(out@ =~= frame@.bytes());
    Ok(out)
}

/// The three planes of a frame while it is read.
pub struct PixelBuffer {
    pub color: Vec<u8>,
    pub depth: Vec<u8>,
    pub alpha: Vec<u8>,
}

impl View for PixelBuffer {
    type V = Pixels;

    open spec fn view(&self) -> Pixels {
        Pixels { color: self.color@, depth: self.depth@, alpha: self.alpha@ }
    }
}

/// What a read that has the pixels `done` will end in, given what the
/// rest of the commands hold.
pub open spec fn read_on(done: Pixels, rest: Option<Pixels>) -> Option<Pixels> {
    match rest {
        Some(more) => Some(done.join(more)),
        None => None,
    }
}

impl PixelBuffer {
    /// Appends `n` pixels of which nothing is drawn.
    fn push_blank(&mut self, n: usize, transparent: u8)
        ensures
            final(self)@ == old(self)@.join(blank_pixels(n as int, transparent)),
    {
        let mut i: usize = 0;
        let ghost start = self@;
        assert(self@.color =~= start.join(blank_pixels(0, transparent)).color);
        assert(self@.depth =~= start.join(blank_pixels(0, transparent)).depth);
        assert(self@.alpha =~= start.join(blank_pixels(0, transparent)).alpha);
        while i < n
            invariant
                i <= n,
                self@ == start.join(blank_pixels(i as int, transparent)),
            decreases n - i,
        {
            self.color.push(transparent);
            self.depth.push(SPR2_BLANK_DEPTH);
            self.alpha.push(0);
            i += 1;
            assert(self@.color =~= start.join(blank_pixels(i as int, transparent)).color);
            assert(self@.depth =~= start.join(blank_pixels(i as int, transparent)).depth);
            assert(self@.alpha =~= start.join(blank_pixels(i as int, transparent)).alpha);
        }
    }

    /// Appends the `n` fully covered pixels whose pairs follow the command
    /// at the start of `input`.
    fn push_opaque(&mut self, input: &[u8], n: usize)
        requires
            2 + 2 * n <= input.len(),
        ensures
            final(self)@ == old(self)@.join(opaque_pixels(input@, n as int)),
    {
        let mut i: usize = 0;
        let ghost start = self@;
        assert(self@.color =~= start.join(opaque_pixels(input@, 0)).color);
        assert(self@.depth =~= start.join(opaque_pixels(input@, 0)).depth);
        assert(self@.alpha =~= start.join(opaque_pixels(input@, 0)).alpha);
        while i < n
            invariant
                i <= n,
                2 + 2 * n <= input.len(),
                self@ == start.join(opaque_pixels(input@, i as int)),
            decreases n - i,
        {
            self.depth.push(input[2 + 2 * i]);
            self.color.push(input[2 + 2 * i + 1]);
            self.alpha.push(248);
            i += 1;
            assert(self@.color =~= start.join(opaque_pixels(input@, i as int)).color);
            assert(self@.depth =~= start.join(opaque_pixels(input@, i as int)).depth);
            assert(self@.alpha =~= start.join(opaque_pixels(input@, i as int)).alpha);
        }
    }

    /// Appends the `n` partly covered pixels whose triples follow the
    /// command at the start of `input`, if their coverages are those of
    /// partly covered pixels.
    fn push_translucent(&mut self, input: &[u8], n: usize) -> (ok: bool)
        requires
            2 + 3 * n <= input.len(),
        ensures
            ok == translucent_coverages(input@, n as int),
            ok ==> final(self)@ == old(self)@.join(translucent_pixels(input@, n as int)),
    {
        let mut i: usize = 0;
        let ghost start = self@;
        assert(self@.color =~= start.join(translucent_pixels(input@, 0)).color);
        assert(self@.depth =~= start.join(translucent_pixels(input@, 0)).depth);
        assert(self@.alpha =~= start.join(translucent_pixels(input@, 0)).alpha);
        while i < n
            invariant
                i <= n,
                2 + 3 * n <= input.len(),
                self@ == start.join(translucent_pixels(input@, i as int)),
                translucent_coverages(input@, i as int),
            decreases n - i,
        {
            let c = input[2 + 3 * i + 2];
            if c == 0 || c >= 31 {
                return false;
            }
            self.depth.push(input[2 + 3 * i]);
            self.color.push(input[2 + 3 * i + 1]);
            self.alpha.push(c * 8);
            i += 1;
            assert(self@.color =~= start.join(translucent_pixels(input@, i as int)).color);
            assert(self@.depth =~= start.join(translucent_pixels(input@, i as int)).depth);
            assert(self@.alpha =~= start.join(translucent_pixels(input@, i as int)).alpha);
        }
        true
    }
}

/// Joining pixels does not depend on how they are grouped, and blank
/// pixels of no length change nothing.
pub proof fn lemma_join(a: Pixels, b: Pixels, c: Pixels)
    ensures
        a.join(b).join(c) == a.join(b.join(c)),
{
    assert(a.join(b).join(c).color =~= a.join(b.join(c)).color);
    assert(a.join(b).join(c).depth =~= a.join(b.join(c)).depth);
    assert(a.join(b).join(c).alpha =~= a.join(b.join(c)).alpha);
}

/// Reads the commands of one row and appends the pixels of the row.
fn decode_spr2_row(pixels: &mut PixelBuffer, input: &[u8], width: usize, transparent: u8) -> (ok:
    bool)
    requires
        width <= 0xffff,
    ensures
        match decode_row(input@, width as int, 0, transparent) {
            Some(row) => ok && final(pixels)@ == old(pixels)@.join(row),
            None => !ok,
        },
{
    let mut pos: usize = 0;
    let mut x: usize = 0;
    let ghost start = pixels@;
    let ghost whole = decode_row(input@, width as int, 0, transparent);
    let mut row = PixelBuffer { color: Vec::new(), depth: Vec::new(), alpha: Vec::new() };
    proof {
        assert(input@.skip(0) =~= input@);
        let none = row@;
        match whole {
            Some(more) => {
                assert(none.join(more).color =~= more.color);
                assert(none.join(more).depth =~= more.depth);
                assert(none.join(more).alpha =~= more.alpha);
            },
            None => {},
        }
    }
    while pos < input.len()
        invariant
            pos <= input.len(),
            x <= width <= 0xffff,
            whole == decode_row(input@, width as int, 0, transparent),
            whole == read_on(row@, decode_row(input@.skip(pos as int), width as int, x as int, transparent)),
        decreases input.len() - pos,
    {
        let ghost rest = input@.skip(pos as int);
        let ghost done = row@;
        if input.len() - pos < 2 {
            return false;
        }
        let w = read_u16_le(input, pos);
        assert(u16_le_at(rest, 0) == w);
        let op = w / 8192;
        let n = (w % 8192) as usize;
        if n == 0 || n > width - x {
            return false;
        }
        let here = slice_subrange(input, pos, input.len());
        assert(here@ =~= rest);
        if op == SPR2_OPAQUE {
            if input.len() - pos < 2 + 2 * n {
                return false;
            }
            row.push_opaque(here, n);
            proof {
                assert(rest.skip(2 + 2 * n) =~= input@.skip(pos + 2 + 2 * n));
                match decode_row(rest.skip(2 + 2 * n), width as int, x + n, transparent) {
                    Some(more) => lemma_join(done, opaque_pixels(rest, n as int), more),
                    None => {},
                }
            }
            pos = pos + 2 + 2 * n;
        } else if op == SPR2_TRANSLUCENT {
            let size = 3 * n + n % 2;
            if input.len() - pos < 2 + size {
                return false;
            }
            if !row.push_translucent(here, n) {
                return false;
            }
            proof {
                assert(rest.skip(2 + size) =~= input@.skip(pos + 2 + size));
                match decode_row(rest.skip(2 + size), width as int, x + n, transparent) {
                    Some(more) => lemma_join(done, translucent_pixels(rest, n as int), more),
                    None => {},
                }
            }
            pos = pos + 2 + size;
        } else if op == SPR2_TRANSPARENT {
            row.push_blank(n, transparent);
            proof {
                assert(rest.skip(2) =~= input@.skip(pos + 2));
                match decode_row(rest.skip(2), width as int, x + n, transparent) {
                    Some(more) => lemma_join(done, blank_pixels(n as int, transparent), more),
                    None => {},
                }
            }
            pos = pos + 2;
        } else {
            return false;
        }
        x = x + n;
    }
    let ghost done = row@;
    row.push_blank(width - x, transparent);
    proof {
        assert(input@.skip(pos as int).len() == 0);
        assert(whole == Some(row@));
    }
    let ghost before = pixels@;
    push_all(&mut pixels.color, row.color.as_slice());
    push_all(&mut pixels.depth, row.depth.as_slice());
    push_all(&mut pixels.alpha, row.alpha.as_slice());
    true
}

/// Reads the commands of the rows of a frame, which start at byte 16 of
/// `input`, and gives the pixels of the frame.
fn decode_spr2_rows(input: &[u8], width: u16, height: u16, transparent: u8) -> (r: Option<
    PixelBuffer,
>)
    requires
        16 <= input.len(),
    ensures
        match r {
            Some(pixels) => decode_rows(input@.skip(16), width as int, height as int, transparent)
                == Some(pixels@),
            None => decode_rows(input@.skip(16), width as int, height as int, transparent) is None,
        },
{
    let mut pixels = PixelBuffer { color: Vec::new(), depth: Vec::new(), alpha: Vec::new() };
    let mut pos: usize = 16;
    let mut rows: usize = height as usize;
    let ghost whole = decode_rows(input@.skip(16), width as int, height as int, transparent);
    proof {
        let none = pixels@;
        match whole {
            Some(more) => {
                assert(none.join(more).color =~= more.color);
                assert(none.join(more).depth =~= more.depth);
                assert(none.join(more).alpha =~= more.alpha);
            },
            None => {},
        }
    }
    loop
        invariant
            16 <= pos <= input.len(),
            rows <= 0xffff,
            whole == decode_rows(input@.skip(16), width as int, height as int, transparent),
            whole == read_on(
                pixels@,
                decode_rows(input@.skip(pos as int), width as int, rows as int, transparent),
            ),
        decreases input.len() - pos,
    {
        let ghost rest = input@.skip(pos as int);
        let ghost done = pixels@;
        if input.len() - pos < 2 {
            return None;
        }
        let w = read_u16_le(input, pos);
        assert(u16_le_at(rest, 0) == w);
        let op = w / 8192;
        let n = (w % 8192) as usize;
        if op == SPR2_END {
            if n != 0 || input.len() - pos != 2 || rows != 0 {
                return None;
            }
            proof {
                let none = blank_pixels(0, transparent);
                assert(done.join(none).color =~= done.color);
                assert(done.join(none).depth =~= done.depth);
                assert(done.join(none).alpha =~= done.alpha);
            }
            return Some(pixels);
        } else if op == SPR2_TRANSPARENT_ROWS {
            if n == 0 || n > rows {
                return None;
            }
            assert(n * width <= 8191 * 0xffff) by (nonlinear_arith)
                requires
                    n <= 8191,
                    width <= 0xffff,
            ;
            pixels.push_blank(n * width as usize, transparent);
            proof {
                assert(rest.skip(2) =~= input@.skip(pos + 2));
                match decode_rows(rest.skip(2), width as int, rows - n, transparent) {
                    Some(more) => lemma_join(done, blank_pixels(n * width, transparent), more),
                    None => {},
                }
            }
            rows = rows - n;
            pos = pos + 2;
        } else if op == SPR2_START {
            if n < 2 || n > input.len() - pos || rows == 0 {
                return None;
            }
            let row_input = slice_subrange(input, pos + 2, pos + n);
            assert(row_input@ =~= rest.subrange(2, n as int));
            if !decode_spr2_row(&mut pixels, row_input, width as usize, transparent) {
                return None;
            }
            proof {
                assert(rest.skip(n as int) =~= input@.skip(pos + n));
                let row = decode_row(
                    rest.subrange(2, n as int),
                    width as int,
                    0,
                    transparent,
                )->Some_0;
                match decode_rows(rest.skip(n as int), width as int, rows - 1, transparent) {
                    Some(more) => lemma_join(done, row, more),
                    None => {},
                }
            }
            rows = rows - 1;
            pos = pos + n;
        } else {
            return None;
        }
    }
}

/// Reads a frame back from what was written for it.
///
/// The commands are followed to the command that ends the frame: a command
/// that holds no length where it needs one, a run or a row that leaves the
/// frame, a command that is cut short, a coverage that is not that of a
/// partly covered pixel, rows that are missing, or anything after the end,
/// makes the bytes unreadable.
pub fn decode_spr2_frame(input: &[u8]) -> (r: Result<Spr2Frame, PixelError>)
    ensures
        match r {
            Ok(frame) => decode_frame(input@) == Some(frame@),
            Err(e) => e == PixelError::MalformedCommands && decode_frame(input@) is None,
        },
{
    if input.len() < 16 {
        return Err(PixelError::MalformedCommands);
    }
    let width = read_u16_le(input, 0);
    let height = read_u16_le(input, 2);
    let flags = read_u32_le(input, 4);
    let palette_id = read_i16_le(input, 8);
    let marker = read_u16_le(input, 10);
    let top = read_u16_le(input, 12);
    let left = read_u16_le(input, 14);
    if flags != SPR2_FRAME_FLAGS || marker > 255 {
        return Err(PixelError::MalformedCommands);
    }
    let transparent = marker as u8;
    match decode_spr2_rows(input, width, height, transparent) {
        Some(pixels) => Ok(
            Spr2Frame {
                width,
                height,
                palette_id: IffChunkId(palette_id),
                transparent_color_index: transparent,
                top,
                left,
                color: pixels.color,
                depth: pixels.depth,
                alpha: pixels.alpha,
            },
        ),
        None => Err(PixelError::MalformedCommands),
    }
}

} // verus!
