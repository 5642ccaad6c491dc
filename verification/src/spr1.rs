//! The legacy, single-plane pixel format: commands of one opcode byte and
//! one length byte.

use crate::bitmap::lemma_index_in_range;
use crate::bytes::{le_u16, le_u32, push_all, push_u16_le, push_u32_le, push_u8};
use crate::error::PixelError;
use vstd::prelude::*;
use vstd::slice::slice_subrange;

verus! {

/// Command: the frame starts.
pub const SPR1_START_SPRITE: u8 = 0;

/// Command: a run of pixels of which nothing is drawn.
pub const SPR1_TRANSPARENT: u8 = 1;

/// Command: a run of pixels of one value, which is given once.
pub const SPR1_OPAQUE_REPEAT: u8 = 2;

/// Command: a run of pixels whose values are given one by one.
pub const SPR1_OPAQUE: u8 = 3;

/// Command: a row starts; the length is that of the row in bytes, with
/// this command.
pub const SPR1_START: u8 = 4;

/// Command: the frame ends.
pub const SPR1_END_SPRITE: u8 = 5;

/// Command: whole rows of which nothing is drawn.
pub const SPR1_TRANSPARENT_ROWS: u8 = 9;

/// From how many equal pixels on a run is written with its value given
/// once.
pub const SPR1_REPEAT_THRESHOLD: usize = 8;

/// The largest length that a command can hold.
pub const SPR1_MAX_LENGTH: usize = 255;

/// Where the run of equal values that starts at `x` ends: the index after
/// its last pixel.
pub open spec fn same_end(row: Seq<u8>, x: int) -> int
    decreases row.len() - x,
{
    if 0 <= x && x + 1 < row.len() && row[x + 1] == row[x] {
        same_end(row, x + 1)
    } else {
        x + 1
    }
}

/// Where the run that starts at `x`, of drawn pixels each different from
/// the one before it, ends. The run takes in the first pixel of a run of
/// equal values that follows it.
pub open spec fn unique_end(row: Seq<u8>, transparent: u8, x: int) -> int
    decreases row.len() - x,
{
    if 0 <= x && x + 1 < row.len() && row[x + 1] != row[x] && row[x + 1] != transparent {
        unique_end(row, transparent, x + 1)
    } else {
        x + 1
    }
}

/// A run of equal values is not empty, stays inside its row, holds one
/// value only and cannot be made longer.
pub proof fn lemma_same_end(row: Seq<u8>, x: int)
    requires
        0 <= x < row.len(),
    ensures
        x < same_end(row, x) <= row.len(),
        forall|i: int| x <= i < same_end(row, x) ==> #[trigger] row[i] == row[x],
        same_end(row, x) < row.len() ==> row[same_end(row, x)] != row[x],
    decreases row.len() - x,
{
    if x + 1 < row.len() && row[x + 1] == row[x] {
        lemma_same_end(row, x + 1);
    }
}

/// The end of a run of equal values is where a scan that starts at `x`
/// stops.
pub proof fn lemma_same_end_is(row: Seq<u8>, x: int, end: int)
    requires
        0 <= x < end <= row.len(),
        forall|i: int| x <= i < end ==> #[trigger] row[i] == row[x],
        end < row.len() ==> row[end] != row[x],
    ensures
        same_end(row, x) == end,
    decreases end - x,
{
    if x + 1 < end {
        assert(row[x + 1] == row[x]);
        lemma_same_end_is(row, x + 1, end);
    }
}

/// A run of different values is not empty and stays inside its row; none
/// of its pixels but the first is transparent or equal to the one before
/// it.
pub proof fn lemma_unique_end(row: Seq<u8>, transparent: u8, x: int)
    requires
        0 <= x < row.len(),
    ensures
        x < unique_end(row, transparent, x) <= row.len(),
        forall|i: int|
            x < i < unique_end(row, transparent, x) ==> #[trigger] row[i] != transparent && row[i]
                != row[i - 1],
    decreases row.len() - x,
{
    if x + 1 < row.len() && row[x + 1] != row[x] && row[x + 1] != transparent {
        lemma_unique_end(row, transparent, x + 1);
    }
}

/// The end of a run of different values is where a scan that starts at `x`
/// stops.
pub proof fn lemma_unique_end_is(row: Seq<u8>, transparent: u8, x: int, end: int)
    requires
        0 <= x < end <= row.len(),
        forall|i: int| x < i < end ==> #[trigger] row[i] != transparent && row[i] != row[i - 1],
        end < row.len() ==> row[end] == transparent || row[end] == row[end - 1],
    ensures
        unique_end(row, transparent, x) == end,
    decreases end - x,
{
    if x + 1 < end {
        assert(row[x + 1] != transparent && row[x + 1] != row[x + 1 - 1]);
        lemma_unique_end_is(row, transparent, x + 1, end);
    }
}

/// The command `op` with the length `n`.
pub open spec fn command(op: u8, n: int) -> Seq<u8> {
    seq![op, n as u8]
}

/// The command for the literal run `values`, padded to an even number of
/// bytes; nothing for no values; `None` where the run is too long for its
/// length byte.
pub open spec fn literal(values: Seq<u8>) -> Option<Seq<u8>> {
    if values.len() == 0 {
        Some(Seq::empty())
    } else if values.len() > 255 {
        None
    } else {
        Some(
            command(SPR1_OPAQUE, values.len() as int) + values + if values.len() % 2 == 1 {
                seq![0u8]
            } else {
                Seq::empty()
            },
        )
    }
}

/// `first` followed by `rest`, where there are both.
pub open spec fn then(first: Option<Seq<u8>>, rest: Option<Seq<u8>>) -> Option<Seq<u8>> {
    match (first, rest) {
        (Some(a), Some(b)) => Some(a + b),
        _ => None,
    }
}

/// The commands for the pixels of a row from `x` on, after the literal
/// values `pending` that no command was written for yet; `None` where a
/// run is too long for its length byte.
///
/// A run of transparent pixels is one command, and none where it reaches
/// the end of the row. A run of eight or more equal pixels is one command
/// with the value given once. Any other drawn pixels are literal values:
/// shorter runs of equal pixels stay among them, and they are written as
/// one command when a transparent pixel, a long run of equal pixels or the
/// end of the row is reached.
pub open spec fn legacy_row(row: Seq<u8>, transparent: u8, x: int, pending: Seq<u8>) -> Option<
    Seq<u8>,
>
    decreases row.len() - x,
{
    if x < 0 || x >= row.len() {
        literal(pending)
    } else if row[x] == transparent {
        proof {
            lemma_same_end(row, x);
        }
        let end = same_end(row, x);
        if end == row.len() {
            literal(pending)
        } else if end - x > 255 {
            None
        } else {
            then(
                literal(pending),
                then(
                    Some(command(SPR1_TRANSPARENT, end - x)),
                    legacy_row(row, transparent, end, Seq::empty()),
                ),
            )
        }
    } else if x + 1 == row.len() || row[x + 1] == transparent {
        legacy_row(row, transparent, x + 1, pending.push(row[x]))
    } else if row[x + 1] == row[x] {
        proof {
            lemma_same_end(row, x);
        }
        let end = same_end(row, x);
        if end - x >= 8 {
            if end - x > 255 {
                None
            } else {
                then(
                    literal(pending),
                    then(
                        Some(command(SPR1_OPAQUE_REPEAT, end - x) + seq![row[x], 0u8]),
                        legacy_row(row, transparent, end, Seq::empty()),
                    ),
                )
            }
        } else {
            legacy_row(row, transparent, end, pending + row.subrange(x, end))
        }
    } else {
        proof {
            lemma_unique_end(row, transparent, x);
        }
        let end = unique_end(row, transparent, x);
        legacy_row(row, transparent, end, pending + row.subrange(x, end))
    }
}

/// Whether every pixel of a row is the transparent one.
pub open spec fn legacy_blank(row: Seq<u8>, transparent: u8) -> bool {
    forall|i: int| 0 <= i < row.len() ==> #[trigger] row[i] == transparent
}

/// Row `y` of a plane of rows of `width` samples.
pub open spec fn legacy_row_of(pixels: Seq<u8>, width: int, y: int) -> Seq<u8> {
    pixels.subrange(y * width, y * width + width)
}

/// Where the rows of transparent pixels, from row `y` on, end.
pub open spec fn legacy_blank_end(
    pixels: Seq<u8>,
    width: int,
    height: int,
    transparent: u8,
    y: int,
) -> int
    decreases height - y,
{
    if 0 <= y < height && legacy_blank(legacy_row_of(pixels, width, y), transparent) {
        legacy_blank_end(pixels, width, height, transparent, y + 1)
    } else {
        y
    }
}

/// A run of blank rows ends inside the frame, and after its start if it
/// has a row.
pub proof fn lemma_legacy_blank_end(
    pixels: Seq<u8>,
    width: int,
    height: int,
    transparent: u8,
    y: int,
)
    requires
        0 <= y <= height,
    ensures
        y <= legacy_blank_end(pixels, width, height, transparent, y) <= height,
        y < height && legacy_blank(legacy_row_of(pixels, width, y), transparent) ==> y
            < legacy_blank_end(pixels, width, height, transparent, y),
    decreases height - y,
{
    if y < height && legacy_blank(legacy_row_of(pixels, width, y), transparent) {
        lemma_legacy_blank_end(pixels, width, height, transparent, y + 1);
    }
}

/// The end of a run of blank rows is where a scan that starts at `y`
/// stops.
pub proof fn lemma_legacy_blank_end_is(
    pixels: Seq<u8>,
    width: int,
    height: int,
    transparent: u8,
    y: int,
    end: int,
)
    requires
        0 <= y <= end <= height,
        forall|v: int|
            y <= v < end ==> legacy_blank(#[trigger] legacy_row_of(pixels, width, v), transparent),
        end < height ==> !legacy_blank(legacy_row_of(pixels, width, end), transparent),
    ensures
        legacy_blank_end(pixels, width, height, transparent, y) == end,
    decreases end - y,
{
    if y < end {
        assert(legacy_blank(legacy_row_of(pixels, width, y), transparent));
        lemma_legacy_blank_end_is(pixels, width, height, transparent, y + 1, end);
    }
}

/// The smaller of two numbers.
pub open spec fn least(a: int, b: int) -> int {
    if a <= b {
        a
    } else {
        b
    }
}

/// The commands for the rows from `y` on; `None` where a run or a row is
/// too long for its length byte.
///
/// Rows of transparent pixels are written as commands that each stand for
/// up to 255 whole rows. Any other row is the command that starts it,
/// with the length of the row in bytes, and the commands of its runs.
pub open spec fn legacy_rows(pixels: Seq<u8>, width: int, height: int, transparent: u8, y: int)
    -> Option<Seq<u8>>
    decreases height - y,
{
    if y < 0 || y >= height {
        Some(Seq::empty())
    } else if legacy_blank(legacy_row_of(pixels, width, y), transparent) {
        proof {
            lemma_legacy_blank_end(pixels, width, height, transparent, y);
        }
        let n = least(legacy_blank_end(pixels, width, height, transparent, y) - y, 255);
        then(
            Some(command(SPR1_TRANSPARENT_ROWS, n)),
            legacy_rows(pixels, width, height, transparent, y + n),
        )
    } else {
        match legacy_row(legacy_row_of(pixels, width, y), transparent, 0, Seq::empty()) {
            None => None,
            Some(body) => if body.len() > 253 {
                None
            } else {
                then(
                    Some(command(SPR1_START, 2 + body.len() as int) + body),
                    legacy_rows(pixels, width, height, transparent, y + 1),
                )
            },
        }
    }
}

/// A frame in the legacy format on the wire: four reserved bytes, the
/// height, the width, the command that starts the frame, the rows, and the
/// command that ends the frame. An error where the bitmap does not hold a
/// sample for every pixel, where it is too large for the 16-bit fields, or
/// where a run or a row is too long.
pub open spec fn legacy_frame(pixels: Seq<u8>, width: int, height: int, transparent: u8) -> Result<
    Seq<u8>,
    PixelError,
> {
    if pixels.len() != width * height {
        Err(PixelError::PixelCount)
    } else if width > 0xffff || height > 0xffff {
        Err(PixelError::Bounds)
    } else {
        match legacy_rows(pixels, width, height, transparent, 0) {
            None => Err(PixelError::RunTooLong),
            Some(rows) => Ok(
                le_u32(0) + le_u16(height as u16) + le_u16(width as u16) + command(
                    SPR1_START_SPRITE,
                    0,
                ) + rows + command(SPR1_END_SPRITE, 0),
            ),
        }
    }
}

/// Appends the command `op` with the length `n`.
fn push_command(out: &mut Vec<u8>, op: u8, n: usize)
    requires
        n <= 255,
    ensures
        final(out)@ == old(out)@ + command(op, n as int),
{
    out.push(op);
    out.push(n as u8);
    assert(out@ =~= old(out)@ + command(op, n as int));
}

/// Where the run of equal values that starts at `x` ends.
fn scan_same(row: &[u8], x: usize) -> (end: usize)
    requires
        x < row.len(),
    ensures
        end == same_end(row@, x as int),
        x < end <= row.len(),
{
    let value = row[x];
    let mut end: usize = x + 1;
    while end < row.len() && row[end] == value
        invariant
            x < end <= row.len(),
            value == row@[x as int],
            forall|i: int| x <= i < end ==> #[trigger] row@[i] == value,
        decreases row.len() - end,
    {
        end += 1;
    }
    proof {
        lemma_same_end_is(row@, x as int, end as int);
    }
    end
}

/// Where the run of different values that starts at `x` ends.
fn scan_unique(row: &[u8], transparent: u8, x: usize) -> (end: usize)
    requires
        x < row.len(),
    ensures
        end == unique_end(row@, transparent, x as int),
        x < end <= row.len(),
{
    let mut end: usize = x + 1;
    while end < row.len() && row[end] != row[end - 1] && row[end] != transparent
        invariant
            x < end <= row.len(),
            forall|i: int|
                x < i < end ==> #[trigger] row@[i] != transparent && row@[i] != row@[i - 1],
        decreases row.len() - end,
    {
        end += 1;
    }
    proof {
        lemma_unique_end_is(row@, transparent, x as int, end as int);
    }
    end
}

/// Appends the command for the literal values `values`, if there are any.
fn push_literal(out: &mut Vec<u8>, values: &Vec<u8>) -> (ok: bool)
    ensures
        match literal(values@) {
            Some(bytes) => ok && final(out)@ == old(out)@ + bytes,
            None => !ok,
        },
{
    if values.len() == 0 {
        assert(out@ =~= old(out)@ + Seq::<u8>::empty());
        return true;
    }
    if values.len() > SPR1_MAX_LENGTH {
        return false;
    }
    push_command(out, SPR1_OPAQUE, values.len());
    push_all(out, values.as_slice());
    if values.len() % 2 == 1 {
        out.push(0);
    }
    assert(out@ =~= old(out)@ + literal(values@)->Some_0);
    true
}

/// What a writer that has written `done` will end in, given what is
/// written for the rest.
pub open spec fn write_on(done: Seq<u8>, rest: Option<Seq<u8>>) -> Option<Seq<u8>> {
    match rest {
        Some(more) => Some(done + more),
        None => None,
    }
}

/// Writes the commands of one row, without the command that starts it.
pub fn encode_spr1_row(row: &[u8], transparent: u8) -> (r: Option<Vec<u8>>)
    ensures
        match r {
            Some(body) => legacy_row(row@, transparent, 0, Seq::empty()) == Some(body@),
            None => legacy_row(row@, transparent, 0, Seq::empty()) is None,
        },
{
    let width = row.len();
    let mut out: Vec<u8> = Vec::new();
    let mut pending: Vec<u8> = Vec::new();
    let mut x: usize = 0;
    let ghost whole = legacy_row(row@, transparent, 0, Seq::empty());
    proof {
        match whole {
            Some(more) => assert(out@ + more =~= more),
            None => {},
        }
    }
    while x < width
        invariant
            x <= width == row.len(),
            whole == legacy_row(row@, transparent, 0, Seq::empty()),
            whole == write_on(out@, legacy_row(row@, transparent, x as int, pending@)),
        decreases width - x,
    {
        let ghost before = out@;
        let ghost waiting = pending@;
        if row[x] == transparent {
            let end = scan_same(row, x);
            if !push_literal(&mut out, &pending) {
                return None;
            }
            if end == width {
                return Some(out);
            }
            if end - x > SPR1_MAX_LENGTH {
                return None;
            }
            push_command(&mut out, SPR1_TRANSPARENT, end - x);
            pending = Vec::new();
            proof {
                let lit = literal(waiting)->Some_0;
                match legacy_row(row@, transparent, end as int, Seq::empty()) {
                    Some(more) => assert(before + (lit + (command(SPR1_TRANSPARENT, end - x)
                        + more)) =~= out@ + more),
                    None => {},
                }
            }
            x = end;
        } else if x + 1 == width || row[x + 1] == transparent {
            pending.push(row[x]);
            x = x + 1;
        } else if row[x + 1] == row[x] {
            let end = scan_same(row, x);
            if end - x >= SPR1_REPEAT_THRESHOLD {
                if end - x > SPR1_MAX_LENGTH {
                    return None;
                }
                if !push_literal(&mut out, &pending) {
                    return None;
                }
                push_command(&mut out, SPR1_OPAQUE_REPEAT, end - x);
                out.push(row[x]);
                out.push(0);
                pending = Vec::new();
                proof {
                    let lit = literal(waiting)->Some_0;
                    match legacy_row(row@, transparent, end as int, Seq::empty()) {
                        Some(more) => assert(before + (lit + (command(
                            SPR1_OPAQUE_REPEAT,
                            end - x,
                        ) + seq![row@[x as int], 0u8] + more)) =~= out@ + more),
                        None => {},
                    }
                }
            } else {
                push_all(&mut pending, slice_subrange(row, x, end));
            }
            x = end;
        } else {
            let end = scan_unique(row, transparent, x);
            push_all(&mut pending, slice_subrange(row, x, end));
            x = end;
        }
    }
    let ghost before = out@;
    if !push_literal(&mut out, &pending) {
        return None;
    }
    Some(out)
}

/// Whether every pixel of the row is the transparent one.
fn is_legacy_blank(row: &[u8], transparent: u8) -> (blank: bool)
    ensures
        blank == legacy_blank(row@, transparent),
{
    let mut i: usize = 0;
    while i < row.len()
        invariant
            i <= row.len(),
            forall|j: int| 0 <= j < i ==> #[trigger] row@[j] == transparent,
        decreases row.len() - i,
    {
        if row[i] != transparent {
            return false;
        }
        i += 1;
    }
    true
}

/// Row `y` of a plane of rows of `width` samples.
fn legacy_plane_row(pixels: &[u8], width: usize, height: usize, y: usize) -> (row: &[u8])
    requires
        pixels.len() == width * height,
        y < height,
    ensures
        row@ == legacy_row_of(pixels@, width as int, y as int),
        row@.len() == width,
{
    proof {
        assert(y * width + width <= width * height) by (nonlinear_arith)
            requires
                0 <= y < height,
                0 <= width,
        ;
        assert(0 <= y * width) by (nonlinear_arith)
            requires
                0 <= y,
                0 <= width,
        ;
    }
    slice_subrange(pixels, y * width, y * width + width)
}

/// Writes the commands of the rows of a frame.
pub fn encode_spr1_rows(pixels: &[u8], width: usize, height: usize, transparent: u8) -> (r: Option<
    Vec<u8>,
>)
    requires
        pixels.len() == width * height,
    ensures
        match r {
            Some(body) => legacy_rows(pixels@, width as int, height as int, transparent, 0)
                == Some(body@),
            None => legacy_rows(pixels@, width as int, height as int, transparent, 0) is None,
        },
{
    let mut out: Vec<u8> = Vec::new();
    let mut y: usize = 0;
    let ghost whole = legacy_rows(pixels@, width as int, height as int, transparent, 0);
    proof {
        match whole {
            Some(more) => assert(out@ + more =~= more),
            None => {},
        }
    }
    while y < height
        invariant
            y <= height,
            pixels.len() == width * height,
            whole == legacy_rows(pixels@, width as int, height as int, transparent, 0),
            whole == write_on(
                out@,
                legacy_rows(pixels@, width as int, height as int, transparent, y as int),
            ),
        decreases height - y,
    {
        let ghost before = out@;
        let row = legacy_plane_row(pixels, width, height, y);
        if is_legacy_blank(row, transparent) {
            let mut end: usize = y + 1;
            while end < height && end - y < SPR1_MAX_LENGTH && is_legacy_blank(
                legacy_plane_row(pixels, width, height, end),
                transparent,
            )
                invariant
                    y < end <= height,
                    end - y <= 255,
                    pixels.len() == width * height,
                    forall|v: int|
                        y <= v < end ==> legacy_blank(
                            #[trigger] legacy_row_of(pixels@, width as int, v),
                            transparent,
                        ),
                decreases height - end,
            {
                end += 1;
            }
            let n = end - y;
            proof {
                lemma_blank_count(
                    pixels@,
                    width as int,
                    height as int,
                    transparent,
                    y as int,
                    end as int,
                );
            }
            push_command(&mut out, SPR1_TRANSPARENT_ROWS, n);
            proof {
                match legacy_rows(pixels@, width as int, height as int, transparent, end as int) {
                    Some(more) => assert(before + (command(SPR1_TRANSPARENT_ROWS, n as int)
                        + more) =~= out@ + more),
                    None => {},
                }
            }
            y = end;
        } else {
            let body = match encode_spr1_row(row, transparent) {
                Some(body) => body,
                None => {
                    return None;
                },
            };
            if body.len() > SPR1_MAX_LENGTH - 2 {
                return None;
            }
            push_command(&mut out, SPR1_START, 2 + body.len());
            push_all(&mut out, body.as_slice());
            proof {
                match legacy_rows(pixels@, width as int, height as int, transparent, y + 1) {
                    Some(more) => assert(before + (command(SPR1_START, 2 + body@.len() as int)
                        + body@ + more) =~= out@ + more),
                    None => {},
                }
            }
            y += 1;
        }
    }
    Some(out)
}

/// Rows that a scan found blank, up to 255 of them or up to the first row
/// that is not, are as many as one command stands for.
pub proof fn lemma_blank_count(
    pixels: Seq<u8>,
    width: int,
    height: int,
    transparent: u8,
    y: int,
    end: int,
)
    requires
        0 <= y < end <= height,
        end - y <= 255,
        forall|v: int|
            y <= v < end ==> legacy_blank(#[trigger] legacy_row_of(pixels, width, v), transparent),
        end < height && end - y < 255 ==> !legacy_blank(
            legacy_row_of(pixels, width, end),
            transparent,
        ),
    ensures
        least(legacy_blank_end(pixels, width, height, transparent, y) - y, 255) == end - y,
    decreases end - y,
{
    assert(legacy_blank(legacy_row_of(pixels, width, y), transparent));
    if y + 1 < end {
        lemma_blank_count_more(pixels, width, height, transparent, y + 1, end);
    } else {
        lemma_legacy_blank_end(pixels, width, height, transparent, y + 1);
    }
}

/// The blank rows from `y` on reach at least to `end` where all rows up to
/// `end` are blank, and end there where the row at `end` is not.
pub proof fn lemma_blank_count_more(
    pixels: Seq<u8>,
    width: int,
    height: int,
    transparent: u8,
    y: int,
    end: int,
)
    requires
        0 <= y <= end <= height,
        forall|v: int|
            y <= v < end ==> legacy_blank(#[trigger] legacy_row_of(pixels, width, v), transparent),
    ensures
        legacy_blank_end(pixels, width, height, transparent, y) >= end,
        end < height && !legacy_blank(legacy_row_of(pixels, width, end), transparent)
            ==> legacy_blank_end(pixels, width, height, transparent, y) == end,
        end == height ==> legacy_blank_end(pixels, width, height, transparent, y) == end,
    decreases end - y,
{
    if y < end {
        assert(legacy_blank(legacy_row_of(pixels, width, y), transparent));
        lemma_blank_count_more(pixels, width, height, transparent, y + 1, end);
    } else {
        lemma_legacy_blank_end(pixels, width, height, transparent, y);
    }
}

/// Writes a frame in the legacy format.
pub fn encode_spr1_frame(pixels: &[u8], width: u32, height: u32, transparent: u8) -> (r: Result<
    Vec<u8>,
    PixelError,
>)
    ensures
        match r {
            Ok(bytes) => legacy_frame(pixels@, width as int, height as int, transparent) == Ok::<
                Seq<u8>,
                PixelError,
            >(bytes@),
            Err(e) => legacy_frame(pixels@, width as int, height as int, transparent) == Err::<
                Seq<u8>,
                PixelError,
            >(e),
        },
{
    assert(width * height <= 0xffff_ffff * 0xffff_ffff) by (nonlinear_arith)
        requires
            width <= 0xffff_ffff,
            height <= 0xffff_ffff,
    ;
    if pixels.len() as u64 != width as u64 * height as u64 {
        return Err(PixelError::PixelCount);
    }
    if width > 0xffff || height > 0xffff {
        return Err(PixelError::Bounds);
    }
    let rows = match encode_spr1_rows(pixels, width as usize, height as usize, transparent) {
        Some(rows) => rows,
        None => {
            return Err(PixelError::RunTooLong);
        },
    };
    let mut out: Vec<u8> = Vec::new();
    push_u32_le(&mut out, 0);
    push_u16_le(&mut out, height as u16);
    push_u16_le(&mut out, width as u16);
    push_command(&mut out, SPR1_START_SPRITE, 0);
    push_all(&mut out, rows.as_slice());
    push_command(&mut out, SPR1_END_SPRITE, 0);
    Ok(out)
}

/// Whether every command of `commands` that gives a value once stands for
/// eight pixels or more. The commands are gone through one after the
/// other, a literal run with its values and its filler byte.
pub open spec fn repeats_are_long(commands: Seq<u8>) -> bool
    decreases commands.len(),
{
    if commands.len() < 2 {
        true
    } else if commands[0] == SPR1_OPAQUE_REPEAT {
        if commands[1] < 8 {
            false
        } else if commands.len() < 4 {
            true
        } else {
            repeats_are_long(commands.skip(4))
        }
    } else if commands[0] == SPR1_OPAQUE {
        let n = commands[1] as int + commands[1] as int % 2;
        if commands.len() < 2 + n {
            true
        } else {
            repeats_are_long(commands.skip(2 + n))
        }
    } else {
        repeats_are_long(commands.skip(2))
    }
}

/// A literal run before commands whose repeats are long leaves them so.
pub proof fn lemma_literal_then(values: Seq<u8>, rest: Seq<u8>)
    requires
        literal(values) is Some,
        repeats_are_long(rest),
    ensures
        repeats_are_long(literal(values)->Some_0 + rest),
{
    let run = literal(values)->Some_0;
    let all = run + rest;
    if values.len() == 0 {
        assert(all =~= rest);
    } else {
        let n = values.len() as int + values.len() as int % 2;
        assert(run.len() == 2 + n);
        assert(all[0] == run[0] && all[1] == run[1]);
        assert(all[0] == SPR1_OPAQUE);
        assert(all[1] as int == values.len());
        assert(all.skip(2 + n) =~= rest);
    }
}

/// No short repeat. Whatever a row holds, a run of equal pixels is written
/// with its value given once only where the command stands for eight
/// pixels or more: a run of two to seven equal pixels is among the
/// literal values.
pub proof fn lemma_repeats_are_long(row: Seq<u8>, transparent: u8, x: int, pending: Seq<u8>)
    requires
        legacy_row(row, transparent, x, pending) is Some,
    ensures
        repeats_are_long(legacy_row(row, transparent, x, pending)->Some_0),
    decreases row.len() - x,
{
    let none = Seq::<u8>::empty();
    if x < 0 || x >= row.len() {
        lemma_literal_then(pending, none);
        assert(literal(pending)->Some_0 + none =~= literal(pending)->Some_0);
    } else if row[x] == transparent {
        lemma_same_end(row, x);
        let end = same_end(row, x);
        if end == row.len() {
            lemma_literal_then(pending, none);
            assert(literal(pending)->Some_0 + none =~= literal(pending)->Some_0);
        } else {
            lemma_repeats_are_long(row, transparent, end, none);
            let rest = legacy_row(row, transparent, end, none)->Some_0;
            let tail = command(SPR1_TRANSPARENT, end - x) + rest;
            assert(tail[0] == SPR1_TRANSPARENT);
            assert(tail.skip(2) =~= rest);
            lemma_literal_then(pending, tail);
        }
    } else if x + 1 == row.len() || row[x + 1] == transparent {
        lemma_repeats_are_long(row, transparent, x + 1, pending.push(row[x]));
    } else if row[x + 1] == row[x] {
        lemma_same_end(row, x);
        let end = same_end(row, x);
        if end - x >= 8 {
            lemma_repeats_are_long(row, transparent, end, none);
            let rest = legacy_row(row, transparent, end, none)->Some_0;
            let tail = command(SPR1_OPAQUE_REPEAT, end - x) + seq![row[x], 0u8] + rest;
            assert(tail[0] == SPR1_OPAQUE_REPEAT);
            assert(tail[1] == (end - x) as u8);
            assert(tail.len() >= 4);
            assert(tail.skip(4) =~= rest);
            lemma_literal_then(pending, tail);
        } else {
            lemma_repeats_are_long(row, transparent, end, pending + row.subrange(x, end));
        }
    } else {
        lemma_unique_end(row, transparent, x);
        let end = unique_end(row, transparent, x);
        lemma_repeats_are_long(row, transparent, end, pending + row.subrange(x, end));
    }
}

/// Boundary. A frame of up to 255 rows, all of transparent pixels, is
/// written as one command for all its rows between the command that
/// starts the frame and the one that ends it.
pub proof fn lemma_legacy_blank_frame(pixels: Seq<u8>, width: int, height: int, transparent: u8)
    requires
        0 < height <= 255,
        forall|v: int|
            0 <= v < height ==> legacy_blank(#[trigger] legacy_row_of(pixels, width, v), transparent),
    ensures
        legacy_rows(pixels, width, height, transparent, 0) == Some(
            command(SPR1_TRANSPARENT_ROWS, height),
        ),
{
    lemma_blank_count_more(pixels, width, height, transparent, 0, height);
    assert(legacy_blank(legacy_row_of(pixels, width, 0), transparent));
    let rest = legacy_rows(pixels, width, height, transparent, height);
    assert(rest == Some(Seq::<u8>::empty()));
    assert(command(SPR1_TRANSPARENT_ROWS, height) + Seq::<u8>::empty() =~= command(
        SPR1_TRANSPARENT_ROWS,
        height,
    ));
}

} // verus!
