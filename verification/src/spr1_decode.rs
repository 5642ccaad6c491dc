//! Reading frames of the legacy pixel format back.

use crate::bytes::{le_u16, le_u32, lemma_u16_roundtrip, read_u16_le, u16_le_at};
use crate::error::PixelError;
use crate::spr1::{
    command, least, legacy_blank, legacy_blank_end, legacy_frame, legacy_row, legacy_row_of,
    legacy_rows, lemma_legacy_blank_end, lemma_same_end, lemma_unique_end, literal, same_end,
    then, unique_end, SPR1_END_SPRITE, SPR1_OPAQUE, SPR1_OPAQUE_REPEAT, SPR1_START,
    SPR1_START_SPRITE, SPR1_TRANSPARENT, SPR1_TRANSPARENT_ROWS,
};
use vstd::prelude::*;
use vstd::slice::slice_subrange;

verus! {

/// `n` pixels of the value `value`.
pub open spec fn run_of(value: u8, n: int) -> Seq<u8> {
    Seq::new(n as nat, |i: int| value)
}

/// The pixels from column `x` to the end of a row of `width` pixels, read
/// from the commands `input` of the row; what the commands do not reach
/// is transparent. `None` where the commands are not those of such a row.
pub open spec fn decode_legacy_row(input: Seq<u8>, width: int, x: int, transparent: u8) -> Option<
    Seq<u8>,
>
    decreases input.len(),
{
    if input.len() == 0 {
        Some(run_of(transparent, width - x))
    } else if input.len() < 2 {
        None
    } else {
        let op = input[0];
        let n = input[1] as int;
        if n == 0 || x + n > width {
            None
        } else if op == SPR1_TRANSPARENT {
            match decode_legacy_row(input.skip(2), width, x + n, transparent) {
                Some(rest) => Some(run_of(transparent, n) + rest),
                None => None,
            }
        } else if op == SPR1_OPAQUE_REPEAT {
            if input.len() < 4 {
                None
            } else {
                match decode_legacy_row(input.skip(4), width, x + n, transparent) {
                    Some(rest) => Some(run_of(input[2], n) + rest),
                    None => None,
                }
            }
        } else if op == SPR1_OPAQUE {
            if input.len() < 2 + n + n % 2 {
                None
            } else {
                match decode_legacy_row(input.skip(2 + n + n % 2), width, x + n, transparent) {
                    Some(rest) => Some(input.subrange(2, 2 + n) + rest),
                    None => None,
                }
            }
        } else {
            None
        }
    }
}

/// The pixels of the last `rows` rows of a frame, read from the commands
/// `input`, which must end with the command that ends the frame and with
/// nothing after it.
pub open spec fn decode_legacy_rows(input: Seq<u8>, width: int, rows: int, transparent: u8)
    -> Option<Seq<u8>>
    decreases input.len(),
{
    if input.len() < 2 {
        None
    } else {
        let op = input[0];
        let n = input[1] as int;
        if op == SPR1_END_SPRITE {
            if n == 0 && input.len() == 2 && rows == 0 {
                Some(Seq::empty())
            } else {
                None
            }
        } else if op == SPR1_TRANSPARENT_ROWS {
            if n == 0 || n > rows {
                None
            } else {
                match decode_legacy_rows(input.skip(2), width, rows - n, transparent) {
                    Some(rest) => Some(run_of(transparent, n * width) + rest),
                    None => None,
                }
            }
        } else if op == SPR1_START {
            if n < 2 || n > input.len() || rows <= 0 {
                None
            } else {
                match decode_legacy_row(input.subrange(2, n), width, 0, transparent) {
                    None => None,
                    Some(row) => match decode_legacy_rows(
                        input.skip(n),
                        width,
                        rows - 1,
                        transparent,
                    ) {
                        Some(rest) => Some(row + rest),
                        None => None,
                    },
                }
            }
        } else {
            None
        }
    }
}

/// A frame of the legacy format as mathematical values.
pub struct Spr1FrameModel {
    pub width: u16,
    pub height: u16,
    pub pixels: Seq<u8>,
}

/// The frame that `input` holds, where `transparent` is the colour of
/// its transparent pixels; `None` where `input` is not a frame.
pub open spec fn decode_legacy_frame(input: Seq<u8>, transparent: u8) -> Option<Spr1FrameModel> {
    if input.len() < 10 {
        None
    } else if input.subrange(0, 4) != le_u32(0) || input[8] != SPR1_START_SPRITE || input[9]
        != 0 {
        None
    } else {
        let height = u16_le_at(input, 4);
        let width = u16_le_at(input, 6);
        match decode_legacy_rows(input.skip(10), width as int, height as int, transparent) {
            None => None,
            Some(pixels) => Some(Spr1FrameModel { width, height, pixels }),
        }
    }
}

/// A literal run that is followed by more commands is read back as its
/// values followed by what the other commands give.
pub proof fn lemma_literal(
    values: Seq<u8>,
    rest: Seq<u8>,
    width: int,
    x: int,
    transparent: u8,
)
    requires
        literal(values) is Some,
        0 <= x,
        x + values.len() <= width,
        decode_legacy_row(rest, width, x + values.len(), transparent) is Some,
    ensures
        decode_legacy_row(literal(values)->Some_0 + rest, width, x, transparent) == Some(
            values + decode_legacy_row(rest, width, x + values.len(), transparent)->Some_0,
        ),
{
    let bytes = literal(values)->Some_0;
    let input = bytes + rest;
    let n = values.len() as int;
    if n == 0 {
        assert(input =~= rest);
        assert(values + decode_legacy_row(rest, width, x, transparent)->Some_0
            =~= decode_legacy_row(rest, width, x, transparent)->Some_0);
    } else {
        assert(input[0] == SPR1_OPAQUE);
        assert(input[1] == n);
        assert(input.subrange(2, 2 + n) =~= values);
        assert(input.skip(2 + n + n % 2) =~= rest);
    }
}

/// A row that ends with the literal values `pending`, and with
/// transparent pixels after them, is read back from the command for those
/// values.
pub proof fn lemma_row_end(row: Seq<u8>, transparent: u8, x: int, pending: Seq<u8>)
    requires
        0 <= x <= row.len(),
        pending.len() <= x,
        literal(pending) is Some,
        forall|i: int| x <= i < row.len() ==> row[i] == transparent,
    ensures
        decode_legacy_row(
            literal(pending)->Some_0,
            row.len() as int,
            x - pending.len(),
            transparent,
        ) == Some(pending + row.skip(x)),
{
    let width = row.len() as int;
    let none = Seq::<u8>::empty();
    assert(decode_legacy_row(none, width, x, transparent) == Some(run_of(transparent, width - x)));
    assert(run_of(transparent, width - x) =~= row.skip(x));
    lemma_literal(pending, none, width, x - pending.len(), transparent);
    assert(literal(pending)->Some_0 + none =~= literal(pending)->Some_0);
}

/// The literal values `pending`, a run of transparent pixels and the rest
/// of a row are read back from their commands.
pub proof fn lemma_row_transparent(
    row: Seq<u8>,
    transparent: u8,
    x: int,
    end: int,
    pending: Seq<u8>,
    after: Seq<u8>,
)
    requires
        0 <= x < end <= row.len(),
        end - x <= 255,
        pending.len() <= x,
        literal(pending) is Some,
        forall|i: int| x <= i < end ==> row[i] == transparent,
        decode_legacy_row(after, row.len() as int, end, transparent) == Some(row.skip(end)),
    ensures
        decode_legacy_row(
            literal(pending)->Some_0 + (command(SPR1_TRANSPARENT, end - x) + after),
            row.len() as int,
            x - pending.len(),
            transparent,
        ) == Some(pending + row.skip(x)),
{
    let width = row.len() as int;
    let n = end - x;
    let rest = command(SPR1_TRANSPARENT, n) + after;
    assert(rest[0] == SPR1_TRANSPARENT && rest[1] == n);
    assert(rest.skip(2) =~= after);
    assert(decode_legacy_row(rest, width, x, transparent) == Some(
        run_of(transparent, n) + row.skip(end),
    ));
    assert(run_of(transparent, n) + row.skip(end) =~= row.skip(x));
    lemma_literal(pending, rest, width, x - pending.len(), transparent);
}

/// The literal values `pending`, a long run of equal pixels and the rest
/// of a row are read back from their commands.
pub proof fn lemma_row_repeat(
    row: Seq<u8>,
    transparent: u8,
    x: int,
    end: int,
    pending: Seq<u8>,
    after: Seq<u8>,
)
    requires
        0 <= x < end <= row.len(),
        end - x <= 255,
        pending.len() <= x,
        literal(pending) is Some,
        forall|i: int| x <= i < end ==> row[i] == row[x],
        decode_legacy_row(after, row.len() as int, end, transparent) == Some(row.skip(end)),
    ensures
        decode_legacy_row(
            literal(pending)->Some_0 + (command(SPR1_OPAQUE_REPEAT, end - x) + seq![row[x], 0u8]
                + after),
            row.len() as int,
            x - pending.len(),
            transparent,
        ) == Some(pending + row.skip(x)),
{
    let width = row.len() as int;
    let n = end - x;
    let rest = command(SPR1_OPAQUE_REPEAT, n) + seq![row[x], 0u8] + after;
    assert(rest[0] == SPR1_OPAQUE_REPEAT && rest[1] == n && rest[2] == row[x]);
    assert(rest.skip(4) =~= after);
    assert(decode_legacy_row(rest, width, x, transparent) == Some(
        run_of(row[x], n) + row.skip(end),
    ));
    assert(run_of(row[x], n) + row.skip(end) =~= row.skip(x));
    lemma_literal(pending, rest, width, x - pending.len(), transparent);
}

/// The commands of a row, written after the literal values `pending`, are
/// read back as those values followed by the pixels of the row from `x`
/// on.
#[verifier::rlimit(40)]
pub proof fn lemma_legacy_row_roundtrip(row: Seq<u8>, transparent: u8, x: int, pending: Seq<u8>)
    requires
        0 <= x <= row.len(),
        pending.len() <= x,
        legacy_row(row, transparent, x, pending) is Some,
    ensures
        decode_legacy_row(
            legacy_row(row, transparent, x, pending)->Some_0,
            row.len() as int,
            x - pending.len(),
            transparent,
        ) == Some(pending + row.skip(x)),
    decreases row.len() - x,
{
    let width = row.len() as int;
    let none = Seq::<u8>::empty();
    let bytes = legacy_row(row, transparent, x, pending)->Some_0;
    if x >= width {
        assert(bytes == literal(pending)->Some_0);
        lemma_row_end(row, transparent, x, pending);
    } else if row[x] == transparent {
        lemma_same_end(row, x);
        let end = same_end(row, x);
        if end == width {
            assert(bytes == literal(pending)->Some_0);
            lemma_row_end(row, transparent, x, pending);
        } else {
            let after = legacy_row(row, transparent, end, none)->Some_0;
            assert(bytes == literal(pending)->Some_0 + (command(SPR1_TRANSPARENT, end - x)
                + after));
            lemma_legacy_row_roundtrip(row, transparent, end, none);
            assert(none + row.skip(end) =~= row.skip(end));
            lemma_row_transparent(row, transparent, x, end, pending, after);
        }
    } else if x + 1 == width || row[x + 1] == transparent {
        assert(bytes == legacy_row(row, transparent, x + 1, pending.push(row[x]))->Some_0);
        lemma_legacy_row_roundtrip(row, transparent, x + 1, pending.push(row[x]));
        assert(pending.push(row[x]) + row.skip(x + 1) =~= pending + row.skip(x));
    } else if row[x + 1] == row[x] {
        lemma_same_end(row, x);
        let end = same_end(row, x);
        if end - x >= 8 {
            let after = legacy_row(row, transparent, end, none)->Some_0;
            assert(bytes == literal(pending)->Some_0 + (command(SPR1_OPAQUE_REPEAT, end - x)
                + seq![row[x], 0u8] + after));
            lemma_legacy_row_roundtrip(row, transparent, end, none);
            assert(none + row.skip(end) =~= row.skip(end));
            lemma_row_repeat(row, transparent, x, end, pending, after);
        } else {
            assert(bytes == legacy_row(
                row,
                transparent,
                end,
                pending + row.subrange(x, end),
            )->Some_0);
            lemma_legacy_row_roundtrip(row, transparent, end, pending + row.subrange(x, end));
            assert(pending + row.subrange(x, end) + row.skip(end) =~= pending + row.skip(x));
        }
    } else {
        lemma_unique_end(row, transparent, x);
        let end = unique_end(row, transparent, x);
        assert(bytes == legacy_row(row, transparent, end, pending + row.subrange(x, end))->Some_0);
        lemma_legacy_row_roundtrip(row, transparent, end, pending + row.subrange(x, end));
        assert(pending + row.subrange(x, end) + row.skip(end) =~= pending + row.skip(x));
    }
}

/// Rows of transparent pixels are runs of the transparent colour.
pub proof fn lemma_legacy_blank_rows(
    pixels: Seq<u8>,
    width: int,
    height: int,
    transparent: u8,
    y: int,
    end: int,
)
    requires
        0 <= width,
        0 <= y <= end <= height,
        pixels.len() == width * height,
        forall|v: int|
            y <= v < end ==> legacy_blank(#[trigger] legacy_row_of(pixels, width, v), transparent),
    ensures
        run_of(transparent, (end - y) * width) + pixels.skip(end * width) == pixels.skip(
            y * width,
        ),
{
    crate::spr2::lemma_rows(width, height, y, end);
    crate::spr2::lemma_rows(width, height, end, height);
    let got = run_of(transparent, (end - y) * width) + pixels.skip(end * width);
    let want = pixels.skip(y * width);
    assert forall|k: int| y * width <= k < end * width implies pixels[k] == transparent by {
        crate::spr2::lemma_row_of_sample(width, y, end, k);
        let v = k / width;
        assert(legacy_blank(legacy_row_of(pixels, width, v), transparent));
        crate::spr2::lemma_rows(width, height, v, v + 1);
        crate::spr2::lemma_rows(width, height, v + 1, height);
        assert(legacy_row_of(pixels, width, v).len() == width);
        assert(legacy_row_of(pixels, width, v)[k % width] == pixels[v * width + k % width]);
    }
    assert forall|j: int| 0 <= j < want.len() implies got[j] == want[j] by {
        if j < (end - y) * width {
            assert(pixels[y * width + j] == transparent);
        }
    }
    assert(got =~= want);
}

/// The blank rows that one command stands for are blank rows.
pub proof fn lemma_blank_chunk(
    pixels: Seq<u8>,
    width: int,
    height: int,
    transparent: u8,
    y: int,
)
    requires
        0 <= y < height,
        legacy_blank(legacy_row_of(pixels, width, y), transparent),
    ensures
        ({
            let n = least(legacy_blank_end(pixels, width, height, transparent, y) - y, 255);
            &&& 1 <= n <= 255
            &&& y + n <= height
            &&& forall|v: int|
                y <= v < y + n ==> legacy_blank(
                    #[trigger] legacy_row_of(pixels, width, v),
                    transparent,
                )
        }),
{
    lemma_legacy_blank_end(pixels, width, height, transparent, y);
    lemma_blank_run_rows(pixels, width, height, transparent, y);
}

/// Every row before the end of a run of blank rows is blank.
pub proof fn lemma_blank_run_rows(
    pixels: Seq<u8>,
    width: int,
    height: int,
    transparent: u8,
    y: int,
)
    requires
        0 <= y <= height,
    ensures
        forall|v: int|
            y <= v < legacy_blank_end(pixels, width, height, transparent, y) ==> legacy_blank(
                #[trigger] legacy_row_of(pixels, width, v),
                transparent,
            ),
    decreases height - y,
{
    if y < height && legacy_blank(legacy_row_of(pixels, width, y), transparent) {
        lemma_blank_run_rows(pixels, width, height, transparent, y + 1);
    }
}

/// Rows of transparent pixels and the rows after them are read back from
/// their commands.
pub proof fn lemma_rows_blank(
    pixels: Seq<u8>,
    width: int,
    height: int,
    transparent: u8,
    y: int,
    n: int,
    rest: Seq<u8>,
)
    requires
        0 <= width,
        0 <= y,
        1 <= n <= 255,
        y + n <= height,
        pixels.len() == width * height,
        forall|v: int|
            y <= v < y + n ==> legacy_blank(
                #[trigger] legacy_row_of(pixels, width, v),
                transparent,
            ),
        decode_legacy_rows(rest, width, height - (y + n), transparent) == Some(
            pixels.skip((y + n) * width),
        ),
    ensures
        decode_legacy_rows(
            command(SPR1_TRANSPARENT_ROWS, n) + rest,
            width,
            height - y,
            transparent,
        ) == Some(pixels.skip(y * width)),
{
    let input = command(SPR1_TRANSPARENT_ROWS, n) + rest;
    assert(input[0] == SPR1_TRANSPARENT_ROWS && input[1] == n);
    assert(input.skip(2) =~= rest);
    lemma_legacy_blank_rows(pixels, width, height, transparent, y, y + n);
}

/// A row and the rows after it are read back from their commands.
pub proof fn lemma_rows_row(
    pixels: Seq<u8>,
    width: int,
    height: int,
    transparent: u8,
    y: int,
    body: Seq<u8>,
    rest: Seq<u8>,
)
    requires
        0 <= width,
        0 <= y < height,
        pixels.len() == width * height,
        body.len() <= 253,
        decode_legacy_row(body, width, 0, transparent) == Some(legacy_row_of(pixels, width, y)),
        decode_legacy_rows(rest, width, height - (y + 1), transparent) == Some(
            pixels.skip((y + 1) * width),
        ),
    ensures
        decode_legacy_rows(
            command(SPR1_START, 2 + body.len() as int) + body + rest,
            width,
            height - y,
            transparent,
        ) == Some(pixels.skip(y * width)),
{
    let size = 2 + body.len() as int;
    let input = command(SPR1_START, size) + body + rest;
    let row = legacy_row_of(pixels, width, y);
    crate::spr2::lemma_rows(width, height, y, y + 1);
    crate::spr2::lemma_rows(width, height, y + 1, height);
    assert(input[0] == SPR1_START && input[1] == size);
    assert(input.subrange(2, size) =~= body);
    assert(input.skip(size) =~= rest);
    assert(row + pixels.skip((y + 1) * width) =~= pixels.skip(y * width));
}

/// The commands of the rows from `y` on, with the command that ends the
/// frame, are read back as the pixels of those rows.
#[verifier::rlimit(40)]
pub proof fn lemma_legacy_rows_roundtrip(
    pixels: Seq<u8>,
    width: int,
    height: int,
    transparent: u8,
    y: int,
)
    requires
        0 <= width,
        0 <= y <= height,
        pixels.len() == width * height,
        legacy_rows(pixels, width, height, transparent, y) is Some,
    ensures
        decode_legacy_rows(
            legacy_rows(pixels, width, height, transparent, y)->Some_0 + command(
                SPR1_END_SPRITE,
                0,
            ),
            width,
            height - y,
            transparent,
        ) == Some(pixels.skip(y * width)),
    decreases height - y,
{
    let end_command = command(SPR1_END_SPRITE, 0);
    let bytes = legacy_rows(pixels, width, height, transparent, y)->Some_0;
    let input = bytes + end_command;
    crate::spr2::lemma_rows(width, height, y, height);
    if y >= height {
        assert(input =~= end_command);
        assert(pixels.skip(y * width) =~= Seq::<u8>::empty());
    } else if legacy_blank(legacy_row_of(pixels, width, y), transparent) {
        lemma_blank_chunk(pixels, width, height, transparent, y);
        let n = least(legacy_blank_end(pixels, width, height, transparent, y) - y, 255);
        let after = legacy_rows(pixels, width, height, transparent, y + n)->Some_0;
        assert(bytes == command(SPR1_TRANSPARENT_ROWS, n) + after);
        lemma_legacy_rows_roundtrip(pixels, width, height, transparent, y + n);
        let rest = after + end_command;
        assert(input =~= command(SPR1_TRANSPARENT_ROWS, n) + rest);
        lemma_rows_blank(pixels, width, height, transparent, y, n, rest);
    } else {
        let row = legacy_row_of(pixels, width, y);
        let body = legacy_row(row, transparent, 0, Seq::empty())->Some_0;
        let after = legacy_rows(pixels, width, height, transparent, y + 1)->Some_0;
        assert(bytes == command(SPR1_START, 2 + body.len() as int) + body + after);
        crate::spr2::lemma_rows(width, height, y, y + 1);
        lemma_legacy_row_roundtrip(row, transparent, 0, Seq::empty());
        assert(Seq::<u8>::empty() + row.skip(0) =~= row);
        lemma_legacy_rows_roundtrip(pixels, width, height, transparent, y + 1);
        let rest = after + end_command;
        assert(input =~= command(SPR1_START, 2 + body.len() as int) + body + rest);
        lemma_rows_row(pixels, width, height, transparent, y, body, rest);
    }
}

/// Legacy codec round trip. A frame that can be written is read back from
/// what was written for it exactly as it is: its width, its height and
/// every pixel.
pub proof fn lemma_legacy_roundtrip(pixels: Seq<u8>, width: int, height: int, transparent: u8)
    requires
        0 <= width,
        0 <= height,
        legacy_frame(pixels, width, height, transparent) is Ok,
    ensures
        decode_legacy_frame(legacy_frame(pixels, width, height, transparent)->Ok_0, transparent)
            == Some(
            Spr1FrameModel { width: width as u16, height: height as u16, pixels },
        ),
{
    let rows = legacy_rows(pixels, width, height, transparent, 0)->Some_0;
    let input = legacy_frame(pixels, width, height, transparent)->Ok_0;
    let tail = rows + command(SPR1_END_SPRITE, 0);
    lemma_legacy_rows_roundtrip(pixels, width, height, transparent, 0);
    let h = le_u16(height as u16);
    let w = le_u16(width as u16);
    let s = command(SPR1_START_SPRITE, 0);
    assert(input =~= le_u32(0) + h + (w + s + tail));
    lemma_u16_roundtrip(height as u16, le_u32(0), w + s + tail);
    assert(input =~= (le_u32(0) + h) + w + (s + tail));
    lemma_u16_roundtrip(width as u16, le_u32(0) + h, s + tail);
    assert(input.subrange(0, 4) =~= le_u32(0));
    assert(input.skip(10) =~= tail);
    assert(pixels.skip(0) =~= pixels);
}

/// One frame of the legacy format: its size and its pixels, rows from the
/// top down.
#[derive(Debug)]
pub struct Spr1Frame {
    pub width: u16,
    pub height: u16,
    pub pixels: Vec<u8>,
}

impl View for Spr1Frame {
    type V = Spr1FrameModel;

    open spec fn view(&self) -> Spr1FrameModel {
        Spr1FrameModel { width: self.width, height: self.height, pixels: self.pixels@ }
    }
}

/// What a read that has the pixels `done` will end in, given what the rest
/// of the commands hold.
pub open spec fn pixels_on(done: Seq<u8>, rest: Option<Seq<u8>>) -> Option<Seq<u8>> {
    match rest {
        Some(more) => Some(done + more),
        None => None,
    }
}

/// Appends `n` pixels of the value `value`.
fn push_run(pixels: &mut Vec<u8>, value: u8, n: usize)
    ensures
        final(pixels)@ == old(pixels)@ + run_of(value, n as int),
{
    let mut i: usize = 0;
    assert(pixels@ =~= old(pixels)@ + run_of(value, 0));
    while i < n
        invariant
            i <= n,
            pixels@ == old(pixels)@ + run_of(value, i as int),
        decreases n - i,
    {
        pixels.push(value);
        i += 1;
        assert(pixels@ =~= old(pixels)@ + run_of(value, i as int));
    }
}

/// Reads the commands of one row and appends the pixels of the row.
fn decode_spr1_row(pixels: &mut Vec<u8>, input: &[u8], width: usize, transparent: u8) -> (ok: bool)
    requires
        width <= 0xffff,
    ensures
        match decode_legacy_row(input@, width as int, 0, transparent) {
            Some(row) => ok && final(pixels)@ == old(pixels)@ + row,
            None => !ok,
        },
{
    let mut pos: usize = 0;
    let mut x: usize = 0;
    let ghost whole = decode_legacy_row(input@, width as int, 0, transparent);
    let mut row: Vec<u8> = Vec::new();
    proof {
        assert(input@.skip(0) =~= input@);
        match whole {
            Some(more) => assert(row@ + more =~= more),
            None => {},
        }
    }
    while pos < input.len()
        invariant
            pos <= input.len(),
            x <= width <= 0xffff,
            whole == decode_legacy_row(input@, width as int, 0, transparent),
            whole == pixels_on(
                row@,
                decode_legacy_row(input@.skip(pos as int), width as int, x as int, transparent),
            ),
        decreases input.len() - pos,
    {
        let ghost rest = input@.skip(pos as int);
        let ghost done = row@;
        if input.len() - pos < 2 {
            return false;
        }
        let op = input[pos];
        let n = input[pos + 1] as usize;
        assert(rest[0] == op && rest[1] == n);
        if n == 0 || n > width - x {
            return false;
        }
        if op == SPR1_TRANSPARENT {
            push_run(&mut row, transparent, n);
            proof {
                assert(rest.skip(2) =~= input@.skip(pos + 2));
                match decode_legacy_row(rest.skip(2), width as int, x + n, transparent) {
                    Some(more) => assert(done + (run_of(transparent, n as int) + more) =~= row@
                        + more),
                    None => {},
                }
            }
            pos = pos + 2;
        } else if op == SPR1_OPAQUE_REPEAT {
            if input.len() - pos < 4 {
                return false;
            }
            let value = input[pos + 2];
            assert(rest[2] == value);
            push_run(&mut row, value, n);
            proof {
                assert(rest.skip(4) =~= input@.skip(pos + 4));
                match decode_legacy_row(rest.skip(4), width as int, x + n, transparent) {
                    Some(more) => assert(done + (run_of(value, n as int) + more) =~= row@ + more),
                    None => {},
                }
            }
            pos = pos + 4;
        } else if op == SPR1_OPAQUE {
            let size = n + n % 2;
            if input.len() - pos < 2 + size {
                return false;
            }
            let values = slice_subrange(input, pos + 2, pos + 2 + n);
            assert(values@ =~= rest.subrange(2, 2 + n));
            crate::bytes::push_all(&mut row, values);
            proof {
                assert(rest.skip(2 + size) =~= input@.skip(pos + 2 + size));
                match decode_legacy_row(rest.skip(2 + size), width as int, x + n, transparent) {
                    Some(more) => assert(done + (rest.subrange(2, 2 + n) + more) =~= row@ + more),
                    None => {},
                }
            }
            pos = pos + 2 + size;
        } else {
            return false;
        }
        x = x + n;
    }
    push_run(&mut row, transparent, width - x);
    proof {
        assert(input@.skip(pos as int).len() == 0);
        assert(whole == Some(row@));
    }
    crate::bytes::push_all(pixels, row.as_slice());
    true
}

/// Reads the commands of the rows of a frame, which start at byte 10 of
/// `input`, and gives the pixels of the frame.
fn decode_spr1_rows(input: &[u8], width: u16, height: u16, transparent: u8) -> (r: Option<
    Vec<u8>,
>)
    requires
        10 <= input.len(),
    ensures
        match r {
            Some(pixels) => decode_legacy_rows(
                input@.skip(10),
                width as int,
                height as int,
                transparent,
            ) == Some(pixels@),
            None => decode_legacy_rows(input@.skip(10), width as int, height as int, transparent)
                is None,
        },
{
    let mut pixels: Vec<u8> = Vec::new();
    let mut pos: usize = 10;
    let mut rows: usize = height as usize;
    let ghost whole = decode_legacy_rows(input@.skip(10), width as int, height as int, transparent);
    proof {
        match whole {
            Some(more) => assert(pixels@ + more =~= more),
            None => {},
        }
    }
    loop
        invariant
            10 <= pos <= input.len(),
            rows <= 0xffff,
            whole == decode_legacy_rows(input@.skip(10), width as int, height as int, transparent),
            whole == pixels_on(
                pixels@,
                decode_legacy_rows(input@.skip(pos as int), width as int, rows as int, transparent),
            ),
        decreases input.len() - pos,
    {
        let ghost rest = input@.skip(pos as int);
        let ghost done = pixels@;
        if input.len() - pos < 2 {
            return None;
        }
        let op = input[pos];
        let n = input[pos + 1] as usize;
        assert(rest[0] == op && rest[1] == n);
        if op == SPR1_END_SPRITE {
            if n != 0 || input.len() - pos != 2 || rows != 0 {
                return None;
            }
            assert(done + Seq::<u8>::empty() =~= done);
            return Some(pixels);
        } else if op == SPR1_TRANSPARENT_ROWS {
            if n == 0 || n > rows {
                return None;
            }
            assert(n * width <= 255 * 0xffff) by (nonlinear_arith)
                requires
                    n <= 255,
                    width <= 0xffff,
            ;
            push_run(&mut pixels, transparent, n * width as usize);
            proof {
                assert(rest.skip(2) =~= input@.skip(pos + 2));
                match decode_legacy_rows(rest.skip(2), width as int, rows - n, transparent) {
                    Some(more) => assert(done + (run_of(transparent, n * width) + more)
                        =~= pixels@ + more),
                    None => {},
                }
            }
            rows = rows - n;
            pos = pos + 2;
        } else if op == SPR1_START {
            if n < 2 || n > input.len() - pos || rows == 0 {
                return None;
            }
            let row_input = slice_subrange(input, pos + 2, pos + n);
            assert(row_input@ =~= rest.subrange(2, n as int));
            if !decode_spr1_row(&mut pixels, row_input, width as usize, transparent) {
                return None;
            }
            proof {
                assert(rest.skip(n as int) =~= input@.skip(pos + n));
                let row = decode_legacy_row(
                    rest.subrange(2, n as int),
                    width as int,
                    0,
                    transparent,
                )->Some_0;
                match decode_legacy_rows(rest.skip(n as int), width as int, rows - 1, transparent) {
                    Some(more) => assert(done + (row + more) =~= pixels@ + more),
                    None => {},
                }
            }
            rows = rows - 1;
            pos = pos + n;
        } else {
            return None;
        }
    }
}

/// Reads a frame of the legacy format back from what was written for it,
/// where `transparent` is the colour of its transparent pixels.
///
/// The commands are followed to the command that ends the frame: a command
/// that holds no length, a run or a row that leaves the frame, a command
/// that is cut short, rows that are missing, or anything after the end,
/// makes the bytes unreadable.
pub fn decode_spr1_frame(input: &[u8], transparent: u8) -> (r: Result<Spr1Frame, PixelError>)
    ensures
        match r {
            Ok(frame) => decode_legacy_frame(input@, transparent) == Some(frame@),
            Err(e) => e == PixelError::MalformedCommands && decode_legacy_frame(input@, transparent)
                is None,
        },
{
    if input.len() < 10 {
        return Err(PixelError::MalformedCommands);
    }
    let reserved = input[0] == 0 && input[1] == 0 && input[2] == 0 && input[3] == 0;
    proof {
        if reserved {
            assert(input@.subrange(0, 4) =~= le_u32(0));
        } else {
            assert(input@.subrange(0, 4)[0] == input@[0] && input@.subrange(0, 4)[1] == input@[1]
                && input@.subrange(0, 4)[2] == input@[2] && input@.subrange(0, 4)[3]
                == input@[3]);
        }
    }
    if !reserved || input[8] != SPR1_START_SPRITE || input[9] != 0 {
        return Err(PixelError::MalformedCommands);
    }
    let height = read_u16_le(input, 4);
    let width = read_u16_le(input, 6);
    match decode_spr1_rows(input, width, height, transparent) {
        Some(pixels) => Ok(Spr1Frame { width, height, pixels }),
        None => Err(PixelError::MalformedCommands),
    }
}

} // verus!
