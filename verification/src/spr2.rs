//! The modern, three-plane pixel format: 16-bit commands whose top three
//! bits select the command and whose low thirteen bits hold a length.

use crate::bitmap::{lemma_index_in_range, lemma_row_column};
use crate::bytes::{
    i16_bits, i16_of_bits, le_i16, le_u16, le_u32, lemma_u16_roundtrip, push_i16_le, push_u16_le, push_u32_le, push_u8,
    read_i16_le, read_u16_le, read_u32_le, u16_le_at, u32_le_at,
};
use crate::error::PixelError;
use crate::bytes::push_all;
use vstd::prelude::*;
use vstd::slice::slice_subrange;

verus! {

/// The largest length that a command can hold.
pub const SPR2_MAX_LENGTH: usize = 8191;

/// The flags that every frame carries.
pub const SPR2_FRAME_FLAGS: u32 = 7;

/// Bytes of a frame before its first command.
pub const SPR2_FRAME_HEADER_SIZE: usize = 16;

/// The depth of a pixel of which nothing is drawn.
pub const SPR2_BLANK_DEPTH: u8 = 255;

/// Command: a row starts; the length is that of the row in bytes, with
/// this command.
pub const SPR2_START: u16 = 0;

/// Command: a run of fully covered pixels, each as depth and colour.
pub const SPR2_OPAQUE: u16 = 1;

/// Command: a run of partly covered pixels, each as depth, colour and
/// coverage.
pub const SPR2_TRANSLUCENT: u16 = 2;

/// Command: a run of pixels of which nothing is drawn.
pub const SPR2_TRANSPARENT: u16 = 3;

/// Command: whole rows of which nothing is drawn.
pub const SPR2_TRANSPARENT_ROWS: u16 = 4;

/// Command: the frame ends.
pub const SPR2_END: u16 = 5;

/// How a pixel is covered.
#[derive(Copy, Clone, Debug, PartialEq, Eq, Structural)]
pub enum Coverage {
    /// Nothing of the pixel is drawn.
    Transparent,
    /// The pixel is blended with what lies behind it.
    Translucent,
    /// The pixel hides what lies behind it.
    Opaque,
}

/// The coverage of a pixel with the alpha sample `alpha`: its top five
/// bits, none of 31 parts to all of them.
pub open spec fn coverage(alpha: u8) -> int {
    alpha as int / 8
}

/// How a pixel with the alpha sample `alpha` is covered.
pub open spec fn kind_of(alpha: u8) -> Coverage {
    if coverage(alpha) == 0 {
        Coverage::Transparent
    } else if coverage(alpha) == 31 {
        Coverage::Opaque
    } else {
        Coverage::Translucent
    }
}

/// How a pixel with the alpha sample `alpha` is covered.
pub fn pixel_kind(alpha: u8) -> (kind: Coverage)
    ensures
        kind == kind_of(alpha),
{
    let c = alpha / 8;
    if c == 0 {
        Coverage::Transparent
    } else if c == 31 {
        Coverage::Opaque
    } else {
        Coverage::Translucent
    }
}

/// Where the run of equally covered pixels that starts at `x` ends: the
/// index after its last pixel.
pub open spec fn run_end(alpha: Seq<u8>, x: int) -> int
    decreases alpha.len() - x,
{
    if 0 <= x && x + 1 < alpha.len() && kind_of(alpha[x + 1]) == kind_of(alpha[x]) {
        run_end(alpha, x + 1)
    } else {
        x + 1
    }
}

/// A run is not empty, stays inside its row, holds only equally covered
/// pixels and cannot be made longer.
pub proof fn lemma_run_end(alpha: Seq<u8>, x: int)
    requires
        0 <= x < alpha.len(),
    ensures
        x < run_end(alpha, x) <= alpha.len(),
        forall|i: int| x <= i < run_end(alpha, x) ==> kind_of(#[trigger] alpha[i]) == kind_of(
            alpha[x],
        ),
        run_end(alpha, x) < alpha.len() ==> kind_of(alpha[run_end(alpha, x)]) != kind_of(alpha[x]),
    decreases alpha.len() - x,
{
    if x + 1 < alpha.len() && kind_of(alpha[x + 1]) == kind_of(alpha[x]) {
        lemma_run_end(alpha, x + 1);
    }
}

/// The end of a run is where a scan that starts at `x` stops.
pub proof fn lemma_run_end_is(alpha: Seq<u8>, x: int, end: int)
    requires
        0 <= x < end <= alpha.len(),
        forall|i: int| x <= i < end ==> kind_of(#[trigger] alpha[i]) == kind_of(alpha[x]),
        end < alpha.len() ==> kind_of(alpha[end]) != kind_of(alpha[x]),
    ensures
        run_end(alpha, x) == end,
    decreases end - x,
{
    if x + 1 < end {
        assert(kind_of(alpha[x + 1]) == kind_of(alpha[x]));
        lemma_run_end_is(alpha, x + 1, end);
    }
}

/// The command `op` with the length `n`.
pub open spec fn word(op: u16, n: int) -> Seq<u8> {
    le_u16((op * 8192 + n) as u16)
}

/// The pixels `x` to `x + n` of a row as pairs of depth and colour.
pub open spec fn pairs(color: Seq<u8>, depth: Seq<u8>, x: int, n: int) -> Seq<u8> {
    Seq::new(
        (2 * n) as nat,
        |k: int|
            if k % 2 == 0 {
                depth[x + k / 2]
            } else {
                color[x + k / 2]
            },
    )
}

/// The pixels `x` to `x + n` of a row as triples of depth, colour and
/// coverage.
pub open spec fn triples(color: Seq<u8>, depth: Seq<u8>, alpha: Seq<u8>, x: int, n: int) -> Seq<
    u8,
> {
    Seq::new(
        (3 * n) as nat,
        |k: int|
            if k % 3 == 0 {
                depth[x + k / 3]
            } else if k % 3 == 1 {
                color[x + k / 3]
            } else {
                (alpha[x + k / 3] / 8) as u8
            },
    )
}

/// The filler byte after an odd number of triples.
pub open spec fn padding(n: int) -> Seq<u8> {
    if n % 2 == 1 {
        seq![0u8]
    } else {
        Seq::empty()
    }
}

/// The commands for the pixels of a row from `x` on: one command for each
/// run of equally covered pixels, but none for a run of pixels of which
/// nothing is drawn that reaches the end of the row.
pub open spec fn row_body(color: Seq<u8>, depth: Seq<u8>, alpha: Seq<u8>, x: int) -> Seq<u8>
    decreases alpha.len() - x,
{
    if x < 0 || x >= alpha.len() {
        Seq::empty()
    } else {
        proof {
            lemma_run_end(alpha, x);
        }
        let end = run_end(alpha, x);
        let n = end - x;
        match kind_of(alpha[x]) {
            Coverage::Transparent => if end == alpha.len() {
                Seq::empty()
            } else {
                word(SPR2_TRANSPARENT, n) + row_body(color, depth, alpha, end)
            },
            Coverage::Translucent => word(SPR2_TRANSLUCENT, n) + triples(
                color,
                depth,
                alpha,
                x,
                n,
            ) + padding(n) + row_body(color, depth, alpha, end),
            Coverage::Opaque => word(SPR2_OPAQUE, n) + pairs(color, depth, x, n) + row_body(
                color,
                depth,
                alpha,
                end,
            ),
        }
    }
}

/// Whether every run of a row from `x` on, but for a last run of pixels of
/// which nothing is drawn, has a length that a command can hold.
pub open spec fn row_fits(alpha: Seq<u8>, x: int) -> bool
    decreases alpha.len() - x,
{
    if x < 0 || x >= alpha.len() {
        true
    } else {
        proof {
            lemma_run_end(alpha, x);
        }
        let end = run_end(alpha, x);
        if kind_of(alpha[x]) == Coverage::Transparent && end == alpha.len() {
            true
        } else {
            end - x <= 8191 && row_fits(alpha, end)
        }
    }
}

/// Whether nothing of a row is drawn.
pub open spec fn blank_row(alpha: Seq<u8>) -> bool {
    forall|i: int| 0 <= i < alpha.len() ==> kind_of(#[trigger] alpha[i]) == Coverage::Transparent
}

/// The pixel data of a frame: three planes of `width * height` samples
/// each, rows from the top down.
pub struct Planes {
    pub width: int,
    pub height: int,
    pub color: Seq<u8>,
    pub depth: Seq<u8>,
    pub alpha: Seq<u8>,
}

/// Row `y` of a plane of rows of `width` samples.
pub open spec fn row_of(plane: Seq<u8>, width: int, y: int) -> Seq<u8> {
    plane.subrange(y * width, y * width + width)
}

impl Planes {
    /// Every plane has one sample for every pixel.
    pub open spec fn wf(self) -> bool {
        &&& 0 <= self.width
        &&& 0 <= self.height
        &&& self.color.len() == self.width * self.height
        &&& self.depth.len() == self.width * self.height
        &&& self.alpha.len() == self.width * self.height
    }

    /// Whether nothing of row `y` is drawn.
    pub open spec fn blank_at(self, y: int) -> bool {
        blank_row(row_of(self.alpha, self.width, y))
    }

    /// Where the rows of which nothing is drawn, from row `y` on, end.
    pub open spec fn blank_end(self, y: int) -> int
        decreases self.height - y,
    {
        if 0 <= y < self.height && self.blank_at(y) {
            self.blank_end(y + 1)
        } else {
            y
        }
    }

    /// The commands of row `y`, without the command that starts the row.
    pub open spec fn row_commands(self, y: int) -> Seq<u8> {
        row_body(
            row_of(self.color, self.width, y),
            row_of(self.depth, self.width, y),
            row_of(self.alpha, self.width, y),
            0,
        )
    }

    /// The commands for the rows from `y` on: one command for all the rows
    /// of a run of rows of which nothing is drawn, and for any other row
    /// the command that starts it and the commands of its runs.
    pub open spec fn rows_body(self, y: int) -> Seq<u8>
        decreases self.height - y,
    {
        if y < 0 || y >= self.height {
            Seq::empty()
        } else if self.blank_at(y) {
            proof {
                lemma_blank_end(self, y);
            }
            let end = self.blank_end(y);
            word(SPR2_TRANSPARENT_ROWS, end - y) + self.rows_body(end)
        } else {
            let body = self.row_commands(y);
            word(SPR2_START, 2 + body.len() as int) + body + self.rows_body(y + 1)
        }
    }

    /// Whether every length of the rows from `y` on is one that a command
    /// can hold.
    pub open spec fn rows_fit(self, y: int) -> bool
        decreases self.height - y,
    {
        if y < 0 || y >= self.height {
            true
        } else if self.blank_at(y) {
            proof {
                lemma_blank_end(self, y);
            }
            let end = self.blank_end(y);
            end - y <= 8191 && self.rows_fit(end)
        } else {
            &&& row_fits(row_of(self.alpha, self.width, y), 0)
            &&& 2 + self.row_commands(y).len() <= 8191
            &&& self.rows_fit(y + 1)
        }
    }

    /// The commands of the frame: those of its rows, and the command that
    /// ends the frame.
    pub open spec fn commands(self) -> Seq<u8> {
        self.rows_body(0) + word(SPR2_END, 0)
    }
}

/// A run of rows of which nothing is drawn ends inside the frame, and after
/// its start if it has a row.
pub proof fn lemma_blank_end(planes: Planes, y: int)
    requires
        0 <= y <= planes.height,
    ensures
        y <= planes.blank_end(y) <= planes.height,
        y < planes.height && planes.blank_at(y) ==> y < planes.blank_end(y),
        forall|v: int| y <= v < planes.blank_end(y) ==> #[trigger] planes.blank_at(v),
        planes.blank_end(y) < planes.height ==> !planes.blank_at(planes.blank_end(y)),
    decreases planes.height - y,
{
    if y < planes.height && planes.blank_at(y) {
        lemma_blank_end(planes, y + 1);
    }
}

/// The end of a run of blank rows is where a scan that starts at `y`
/// stops.
pub proof fn lemma_blank_end_is(planes: Planes, y: int, end: int)
    requires
        0 <= y <= end <= planes.height,
        forall|v: int| y <= v < end ==> #[trigger] planes.blank_at(v),
        end < planes.height ==> !planes.blank_at(end),
    ensures
        planes.blank_end(y) == end,
    decreases end - y,
{
    if y < end {
        assert(planes.blank_at(y));
        lemma_blank_end_is(planes, y + 1, end);
    }
}

/// Appends the command `op` with the length `n`.
fn push_word(out: &mut Vec<u8>, op: u16, n: usize)
    requires
        op <= 5,
        n <= 8191,
    ensures
        final(out)@ == old(out)@ + word(op, n as int),
{
    push_u16_le(out, op * 8192 + n as u16);
}

/// Where the run of equally covered pixels that starts at `x` ends.
fn scan_run(alpha: &[u8], x: usize) -> (end: usize)
    requires
        x < alpha.len(),
    ensures
        end == run_end(alpha@, x as int),
        x < end <= alpha.len(),
{
    let kind = pixel_kind(alpha[x]);
    let mut end: usize = x + 1;
    while end < alpha.len() && pixel_kind(alpha[end]) == kind
        invariant
            x < end <= alpha.len(),
            kind == kind_of(alpha@[x as int]),
            forall|i: int| x <= i < end ==> kind_of(#[trigger] alpha@[i]) == kind,
        decreases alpha.len() - end,
    {
        end += 1;
    }
    proof {
        lemma_run_end_is(alpha@, x as int, end as int);
    }
    end
}

/// Appends the pixels `x` to `end` as pairs of depth and colour.
fn push_pairs(out: &mut Vec<u8>, color: &[u8], depth: &[u8], x: usize, end: usize)
    requires
        x <= end <= color.len(),
        color.len() == depth.len(),
    ensures
        final(out)@ == old(out)@ + pairs(color@, depth@, x as int, end - x),
{
    let mut i: usize = x;
    assert(out@ =~= old(out)@ + pairs(color@, depth@, x as int, 0));
    while i < end
        invariant
            x <= i <= end <= color.len(),
            color.len() == depth.len(),
            out@ == old(out)@ + pairs(color@, depth@, x as int, i - x),
        decreases end - i,
    {
        out.push(depth[i]);
        out.push(color[i]);
        i += 1;
        assert(out@ =~= old(out)@ + pairs(color@, depth@, x as int, i - x));
    }
}

/// Appends the pixels `x` to `end` as triples of depth, colour and
/// coverage.
fn push_triples(
    out: &mut Vec<u8>,
    color: &[u8],
    depth: &[u8],
    alpha: &[u8],
    x: usize,
    end: usize,
)
    requires
        x <= end <= color.len(),
        color.len() == depth.len(),
        color.len() == alpha.len(),
    ensures
        final(out)@ == old(out)@ + triples(color@, depth@, alpha@, x as int, end - x),
{
    let mut i: usize = x;
    assert(out@ =~= old(out)@ + triples(color@, depth@, alpha@, x as int, 0));
    while i < end
        invariant
            x <= i <= end <= color.len(),
            color.len() == depth.len(),
            color.len() == alpha.len(),
            out@ == old(out)@ + triples(color@, depth@, alpha@, x as int, i - x),
        decreases end - i,
    {
        out.push(depth[i]);
        out.push(color[i]);
        out.push(alpha[i] / 8);
        i += 1;
        assert(out@ =~= old(out)@ + triples(color@, depth@, alpha@, x as int, i - x));
    }
}

/// Writes the commands of one row, without the command that starts it.
pub fn encode_spr2_row(color: &[u8], depth: &[u8], alpha: &[u8]) -> (r: Result<Vec<u8>, PixelError>)
    requires
        color.len() == alpha.len(),
        depth.len() == alpha.len(),
    ensures
        match r {
            Ok(body) => row_fits(alpha@, 0) && body@ == row_body(color@, depth@, alpha@, 0),
            Err(e) => e == PixelError::RunTooLong && !row_fits(alpha@, 0),
        },
{
    let width = alpha.len();
    let mut out: Vec<u8> = Vec::new();
    let mut x: usize = 0;
    let ghost whole = row_body(color@, depth@, alpha@, 0);
    assert(out@ + whole =~= whole);
    while x < width
        invariant
            x <= width == alpha.len(),
            color.len() == alpha.len(),
            depth.len() == alpha.len(),
            whole == row_body(color@, depth@, alpha@, 0),
            out@ + row_body(color@, depth@, alpha@, x as int) == whole,
            row_fits(alpha@, 0) == row_fits(alpha@, x as int),
        decreases width - x,
    {
        let kind = pixel_kind(alpha[x]);
        let end = scan_run(alpha, x);
        let n = end - x;
        let ghost before = out@;
        let ghost rest = row_body(color@, depth@, alpha@, end as int);
        match kind {
            Coverage::Transparent => {
                if end == width {
                    assert(row_body(color@, depth@, alpha@, x as int) =~= Seq::<u8>::empty());
                    assert(row_fits(alpha@, x as int));
                    assert(out@ =~= whole);
                    return Ok(out);
                }
                if n > SPR2_MAX_LENGTH {
                    return Err(PixelError::RunTooLong);
                }
                push_word(&mut out, SPR2_TRANSPARENT, n);
                assert(out@ + rest =~= before + (word(SPR2_TRANSPARENT, n as int) + rest));
            },
            Coverage::Translucent => {
                if n > SPR2_MAX_LENGTH {
                    return Err(PixelError::RunTooLong);
                }
                push_word(&mut out, SPR2_TRANSLUCENT, n);
                push_triples(&mut out, color, depth, alpha, x, end);
                if n % 2 == 1 {
                    out.push(0);
                }
                assert(out@ + rest =~= before + (word(SPR2_TRANSLUCENT, n as int) + triples(
                    color@,
                    depth@,
                    alpha@,
                    x as int,
                    n as int,
                ) + padding(n as int) + rest));
            },
            Coverage::Opaque => {
                if n > SPR2_MAX_LENGTH {
                    return Err(PixelError::RunTooLong);
                }
                push_word(&mut out, SPR2_OPAQUE, n);
                push_pairs(&mut out, color, depth, x, end);
                assert(out@ + rest =~= before + (word(SPR2_OPAQUE, n as int) + pairs(
                    color@,
                    depth@,
                    x as int,
                    n as int,
                ) + rest));
            },
        }
        x = end;
    }
    assert(out@ =~= whole);
    Ok(out)
}

/// Whether nothing of the row is drawn.
fn is_blank_row(alpha: &[u8]) -> (blank: bool)
    ensures
        blank == blank_row(alpha@),
{
    let mut i: usize = 0;
    while i < alpha.len()
        invariant
            i <= alpha.len(),
            forall|j: int| 0 <= j < i ==> kind_of(#[trigger] alpha@[j]) == Coverage::Transparent,
        decreases alpha.len() - i,
    {
        if alpha[i] / 8 != 0 {
            return false;
        }
        i += 1;
    }
    true
}

/// Row `y` of a plane of rows of `width` samples.
fn plane_row(plane: &[u8], width: usize, height: usize, y: usize) -> (row: &[u8])
    requires
        plane.len() == width * height,
        y < height,
    ensures
        row@ == row_of(plane@, width as int, y as int),
        row@.len() == width,
{
    proof {
        lemma_index_in_range(0, y as int, width as int + 1, height as int);
        assert(y * width + width <= width * height) by (nonlinear_arith)
            requires
                0 <= y < height,
                0 <= width,
        ;
        assert(0 <= y * width) by (nonlinear_arith)
            requires
                0 <= y,
                0 <= width,
        ;
    }
    slice_subrange(plane, y * width, y * width + width)
}

/// Writes the commands of the rows of a frame.
pub fn encode_spr2_rows(
    width: usize,
    height: usize,
    color: &[u8],
    depth: &[u8],
    alpha: &[u8],
) -> (r: Result<Vec<u8>, PixelError>)
    requires
        color.len() == width * height,
        depth.len() == width * height,
        alpha.len() == width * height,
    ensures
        ({
            let planes = Planes {
                width: width as int,
                height: height as int,
                color: color@,
                depth: depth@,
                alpha: alpha@,
            };
            match r {
                Ok(body) => planes.rows_fit(0) && body@ == planes.rows_body(0),
                Err(e) => e == PixelError::RunTooLong && !planes.rows_fit(0),
            }
        }),
{
    let ghost planes = Planes {
        width: width as int,
        height: height as int,
        color: color@,
        depth: depth@,
        alpha: alpha@,
    };
    let ghost whole = planes.rows_body(0);
    let mut out: Vec<u8> = Vec::new();
    let mut y: usize = 0;
    assert(out@ + whole =~= whole);
    while y < height
        invariant
            y <= height,
            color.len() == width * height,
            depth.len() == width * height,
            alpha.len() == width * height,
            planes == (Planes {
                width: width as int,
                height: height as int,
                color: color@,
                depth: depth@,
                alpha: alpha@,
            }),
            out@ + planes.rows_body(y as int) == whole,
            planes.rows_fit(0) == planes.rows_fit(y as int),
        decreases height - y,
    {
        let ghost before = out@;
        let alpha_row = plane_row(alpha, width, height, y);
        if is_blank_row(alpha_row) {
            let mut end: usize = y + 1;
            while end < height && is_blank_row(plane_row(alpha, width, height, end))
                invariant
                    y < end <= height,
                    alpha.len() == width * height,
                    planes.alpha == alpha@,
                    planes.width == width,
                    planes.height == height,
                    forall|v: int| y <= v < end ==> #[trigger] planes.blank_at(v),
                decreases height - end,
            {
                end += 1;
            }
            proof {
                lemma_blank_end_is(planes, y as int, end as int);
            }
            let n = end - y;
            if n > SPR2_MAX_LENGTH {
                return Err(PixelError::RunTooLong);
            }
            push_word(&mut out, SPR2_TRANSPARENT_ROWS, n);
            let ghost rest = planes.rows_body(end as int);
            assert(out@ + rest =~= before + (word(SPR2_TRANSPARENT_ROWS, n as int) + rest));
            y = end;
        } else {
            let color_row = plane_row(color, width, height, y);
            let depth_row = plane_row(depth, width, height, y);
            let body = match encode_spr2_row(color_row, depth_row, alpha_row) {
                Ok(body) => body,
                Err(e) => {
                    return Err(e);
                },
            };
            if body.len() > SPR2_MAX_LENGTH - 2 {
                return Err(PixelError::RunTooLong);
            }
            push_word(&mut out, SPR2_START, 2 + body.len());
            push_all(&mut out, body.as_slice());
            let ghost rest = planes.rows_body(y + 1);
            assert(out@ + rest =~= before + (word(SPR2_START, 2 + body@.len() as int) + body@
                + rest));
            y += 1;
        }
    }
    assert(out@ =~= whole);
    Ok(out)
}

/// The pixels of part of a frame, plane by plane.
pub struct Pixels {
    pub color: Seq<u8>,
    pub depth: Seq<u8>,
    pub alpha: Seq<u8>,
}

impl Pixels {
    /// These pixels followed by `other`.
    pub open spec fn join(self, other: Pixels) -> Pixels {
        Pixels {
            color: self.color + other.color,
            depth: self.depth + other.depth,
            alpha: self.alpha + other.alpha,
        }
    }
}

/// `n` pixels of which nothing is drawn: the colour that marks them, the
/// depth that lies behind everything, and no coverage.
pub open spec fn blank_pixels(n: int, transparent: u8) -> Pixels {
    Pixels {
        color: Seq::new(n as nat, |i: int| transparent),
        depth: Seq::new(n as nat, |i: int| SPR2_BLANK_DEPTH),
        alpha: Seq::new(n as nat, |i: int| 0u8),
    }
}

/// The `n` fully covered pixels whose pairs follow the command that
/// `input` starts with.
pub open spec fn opaque_pixels(input: Seq<u8>, n: int) -> Pixels {
    Pixels {
        color: Seq::new(n as nat, |i: int| input[2 + 2 * i + 1]),
        depth: Seq::new(n as nat, |i: int| input[2 + 2 * i]),
        alpha: Seq::new(n as nat, |i: int| 248u8),
    }
}

/// The `n` partly covered pixels whose triples follow the command that
/// `input` starts with.
pub open spec fn translucent_pixels(input: Seq<u8>, n: int) -> Pixels {
    Pixels {
        color: Seq::new(n as nat, |i: int| input[2 + 3 * i + 1]),
        depth: Seq::new(n as nat, |i: int| input[2 + 3 * i]),
        alpha: Seq::new(n as nat, |i: int| (input[2 + 3 * i + 2] * 8) as u8),
    }
}

/// Whether the `n` triples that follow the command hold coverages of
/// partly covered pixels.
pub open spec fn translucent_coverages(input: Seq<u8>, n: int) -> bool {
    forall|i: int| 0 <= i < n ==> 0 < #[trigger] input[2 + 3 * i + 2] < 31
}

/// The command that `input` starts with.
pub open spec fn command_of(input: Seq<u8>) -> int {
    u16_le_at(input, 0) as int / 8192
}

/// The length that the command at the start of `input` holds.
pub open spec fn length_of(input: Seq<u8>) -> int {
    u16_le_at(input, 0) as int % 8192
}

/// The pixels from column `x` to the end of a row of `width` pixels, read
/// from the commands `input` of the row; what the commands do not reach
/// is not drawn. `None` where the commands are not those of such a row.
pub open spec fn decode_row(input: Seq<u8>, width: int, x: int, transparent: u8) -> Option<Pixels>
    decreases input.len(),
{
    if input.len() == 0 {
        Some(blank_pixels(width - x, transparent))
    } else if input.len() < 2 {
        None
    } else {
        let n = length_of(input);
        if n == 0 || x + n > width {
            None
        } else if command_of(input) == SPR2_OPAQUE {
            if input.len() < 2 + 2 * n {
                None
            } else {
                match decode_row(input.skip(2 + 2 * n), width, x + n, transparent) {
                    Some(rest) => Some(opaque_pixels(input, n).join(rest)),
                    None => None,
                }
            }
        } else if command_of(input) == SPR2_TRANSLUCENT {
            if input.len() < 2 + 3 * n + n % 2 || !translucent_coverages(input, n) {
                None
            } else {
                match decode_row(input.skip(2 + 3 * n + n % 2), width, x + n, transparent) {
                    Some(rest) => Some(translucent_pixels(input, n).join(rest)),
                    None => None,
                }
            }
        } else if command_of(input) == SPR2_TRANSPARENT {
            match decode_row(input.skip(2), width, x + n, transparent) {
                Some(rest) => Some(blank_pixels(n, transparent).join(rest)),
                None => None,
            }
        } else {
            None
        }
    }
}

/// The pixels of the last `rows` rows of a frame, read from the commands
/// `input`, which must end with the command that ends the frame and with
/// nothing after it. `None` where the commands are not those of such
/// rows.
pub open spec fn decode_rows(input: Seq<u8>, width: int, rows: int, transparent: u8) -> Option<
    Pixels,
>
    decreases input.len(),
{
    if input.len() < 2 {
        None
    } else {
        let n = length_of(input);
        if command_of(input) == SPR2_END {
            if n == 0 && input.len() == 2 && rows == 0 {
                Some(blank_pixels(0, transparent))
            } else {
                None
            }
        } else if command_of(input) == SPR2_TRANSPARENT_ROWS {
            if n == 0 || n > rows {
                None
            } else {
                match decode_rows(input.skip(2), width, rows - n, transparent) {
                    Some(rest) => Some(blank_pixels(n * width, transparent).join(rest)),
                    None => None,
                }
            }
        } else if command_of(input) == SPR2_START {
            if n < 2 || n > input.len() || rows <= 0 {
                None
            } else {
                match decode_row(input.subrange(2, n), width, 0, transparent) {
                    None => None,
                    Some(row) => match decode_rows(input.skip(n), width, rows - 1, transparent) {
                        Some(rest) => Some(row.join(rest)),
                        None => None,
                    },
                }
            }
        } else {
            None
        }
    }
}

/// A frame in the modern format as mathematical values: what its header
/// says, and its three planes.
pub struct Spr2FrameModel {
    pub width: u16,
    pub height: u16,
    pub palette_id: i16,
    pub transparent_color_index: u8,
    pub top: u16,
    pub left: u16,
    pub color: Seq<u8>,
    pub depth: Seq<u8>,
    pub alpha: Seq<u8>,
}

impl Spr2FrameModel {
    /// The planes of the frame.
    pub open spec fn planes(self) -> Planes {
        Planes {
            width: self.width as int,
            height: self.height as int,
            color: self.color,
            depth: self.depth,
            alpha: self.alpha,
        }
    }

    /// Every plane has one sample for every pixel.
    pub open spec fn wf(self) -> bool {
        self.planes().wf()
    }

    /// The coverage of every pixel is a whole number of 31 parts, and a
    /// pixel of which nothing is drawn has the colour that marks such
    /// pixels and the depth that lies behind everything.
    pub open spec fn normal(self) -> bool {
        forall|i: int|
            0 <= i < self.alpha.len() ==> (#[trigger] self.alpha[i]) % 8 == 0 && (self.alpha[i]
                == 0 ==> self.color[i] == self.transparent_color_index && self.depth[i]
                == SPR2_BLANK_DEPTH)
    }

    /// The 16 bytes that stand before the commands: width, height, the
    /// flags, the palette, the transparent colour as 16 bits, and the row
    /// and column of the frame's top left corner.
    pub open spec fn header(self) -> Seq<u8> {
        le_u16(self.width) + le_u16(self.height) + le_u32(SPR2_FRAME_FLAGS) + le_i16(
            self.palette_id,
        ) + le_u16(self.transparent_color_index as u16) + le_u16(self.top) + le_u16(self.left)
    }

    /// The frame on the wire.
    pub open spec fn bytes(self) -> Seq<u8> {
        self.header() + self.planes().commands()
    }
}

/// The frame on the wire, or why it cannot be written.
pub open spec fn encode_frame(frame: Spr2FrameModel) -> Result<Seq<u8>, PixelError> {
    if !frame.wf() {
        Err(PixelError::PixelCount)
    } else if !frame.planes().rows_fit(0) {
        Err(PixelError::RunTooLong)
    } else {
        Ok(frame.bytes())
    }
}

/// The frame that `input` holds, or `None` where `input` is not a frame.
pub open spec fn decode_frame(input: Seq<u8>) -> Option<Spr2FrameModel> {
    if input.len() < 16 {
        None
    } else if u32_le_at(input, 4) != SPR2_FRAME_FLAGS || u16_le_at(input, 10) > 255 {
        None
    } else {
        let width = u16_le_at(input, 0);
        let height = u16_le_at(input, 2);
        let transparent = u16_le_at(input, 10) as u8;
        match decode_rows(input.skip(16), width as int, height as int, transparent) {
            None => None,
            Some(pixels) => Some(
                Spr2FrameModel {
                    width,
                    height,
                    palette_id: i16_of_bits(u16_le_at(input, 8)),
                    transparent_color_index: transparent,
                    top: u16_le_at(input, 12),
                    left: u16_le_at(input, 14),
                    color: pixels.color,
                    depth: pixels.depth,
                    alpha: pixels.alpha,
                },
            ),
        }
    }
}

/// A command is read back as it was written.
pub proof fn lemma_word(op: u16, n: int, rest: Seq<u8>)
    requires
        op <= 5,
        0 <= n <= 8191,
    ensures
        command_of(word(op, n) + rest) == op,
        length_of(word(op, n) + rest) == n,
        (word(op, n) + rest).len() == 2 + rest.len(),
        (word(op, n) + rest).skip(2) == rest,
{
    let w = (op * 8192 + n) as u16;
    lemma_u16_roundtrip(w, Seq::empty(), rest);
    assert(Seq::<u8>::empty() + le_u16(w) + rest =~= word(op, n) + rest);
    assert((word(op, n) + rest).skip(2) =~= rest);
}

/// Whether the pixels of a row are as the decoder gives them: coverage in
/// whole parts, and pixels of which nothing is drawn marked as such.
pub open spec fn normal_row(color: Seq<u8>, depth: Seq<u8>, alpha: Seq<u8>, transparent: u8)
    -> bool {
    forall|i: int|
        0 <= i < alpha.len() ==> (#[trigger] alpha[i]) % 8 == 0 && (alpha[i] == 0 ==> color[i]
            == transparent && depth[i] == SPR2_BLANK_DEPTH)
}

/// The pixels `x` to `end` of a row.
pub open spec fn run_pixels(color: Seq<u8>, depth: Seq<u8>, alpha: Seq<u8>, x: int, end: int)
    -> Pixels {
    Pixels {
        color: color.subrange(x, end),
        depth: depth.subrange(x, end),
        alpha: alpha.subrange(x, end),
    }
}

/// A run of pixels of which nothing is drawn is read back as it is.
pub proof fn lemma_blank_run(
    color: Seq<u8>,
    depth: Seq<u8>,
    alpha: Seq<u8>,
    x: int,
    end: int,
    transparent: u8,
)
    requires
        color.len() == alpha.len(),
        depth.len() == alpha.len(),
        0 <= x <= end <= alpha.len(),
        normal_row(color, depth, alpha, transparent),
        forall|i: int| x <= i < end ==> kind_of(#[trigger] alpha[i]) == Coverage::Transparent,
    ensures
        blank_pixels(end - x, transparent) == run_pixels(color, depth, alpha, x, end),
{
    let got = blank_pixels(end - x, transparent);
    let want = run_pixels(color, depth, alpha, x, end);
    assert forall|j: int| 0 <= j < end - x implies got.color[j] == want.color[j] && got.depth[j]
        == want.depth[j] && got.alpha[j] == want.alpha[j] by {
        assert(kind_of(alpha[x + j]) == Coverage::Transparent);
        assert(alpha[x + j] % 8 == 0);
    }
    assert(got.color =~= want.color);
    assert(got.depth =~= want.depth);
    assert(got.alpha =~= want.alpha);
}

/// A run of fully covered pixels is read back as it is.
pub proof fn lemma_opaque_run(
    color: Seq<u8>,
    depth: Seq<u8>,
    alpha: Seq<u8>,
    x: int,
    end: int,
    rest: Seq<u8>,
)
    requires
        color.len() == alpha.len(),
        depth.len() == alpha.len(),
        0 <= x < end <= alpha.len(),
        end - x <= 8191,
        forall|i: int| 0 <= i < alpha.len() ==> (#[trigger] alpha[i]) % 8 == 0,
        forall|i: int| x <= i < end ==> kind_of(#[trigger] alpha[i]) == Coverage::Opaque,
    ensures
        ({
            let n = end - x;
            let input = word(SPR2_OPAQUE, n) + pairs(color, depth, x, n) + rest;
            &&& command_of(input) == SPR2_OPAQUE
            &&& length_of(input) == n
            &&& input.len() == 2 + 2 * n + rest.len()
            &&& input.skip(2 + 2 * n) == rest
            &&& opaque_pixels(input, n) == run_pixels(color, depth, alpha, x, end)
        }),
{
    let n = end - x;
    let body = pairs(color, depth, x, n);
    let input = word(SPR2_OPAQUE, n) + body + rest;
    lemma_word(SPR2_OPAQUE, n, body + rest);
    assert(input =~= word(SPR2_OPAQUE, n) + (body + rest));
    assert(input.skip(2 + 2 * n) =~= rest);
    let got = opaque_pixels(input, n);
    let want = run_pixels(color, depth, alpha, x, end);
    assert forall|j: int| 0 <= j < n implies got.color[j] == want.color[j] && got.depth[j]
        == want.depth[j] && got.alpha[j] == want.alpha[j] by {
        assert(input[2 + 2 * j] == body[2 * j]);
        assert(input[2 + 2 * j + 1] == body[2 * j + 1]);
        assert(kind_of(alpha[x + j]) == Coverage::Opaque);
        assert(alpha[x + j] % 8 == 0);
    }
    assert(got.color =~= want.color);
    assert(got.depth =~= want.depth);
    assert(got.alpha =~= want.alpha);
}

/// A run of partly covered pixels is read back as it is.
pub proof fn lemma_translucent_run(
    color: Seq<u8>,
    depth: Seq<u8>,
    alpha: Seq<u8>,
    x: int,
    end: int,
    rest: Seq<u8>,
)
    requires
        color.len() == alpha.len(),
        depth.len() == alpha.len(),
        0 <= x < end <= alpha.len(),
        end - x <= 8191,
        forall|i: int| 0 <= i < alpha.len() ==> (#[trigger] alpha[i]) % 8 == 0,
        forall|i: int| x <= i < end ==> kind_of(#[trigger] alpha[i]) == Coverage::Translucent,
    ensures
        ({
            let n = end - x;
            let input = word(SPR2_TRANSLUCENT, n) + triples(color, depth, alpha, x, n) + padding(
                n,
            ) + rest;
            &&& command_of(input) == SPR2_TRANSLUCENT
            &&& length_of(input) == n
            &&& input.len() == 2 + 3 * n + n % 2 + rest.len()
            &&& input.skip(2 + 3 * n + n % 2) == rest
            &&& translucent_coverages(input, n)
            &&& translucent_pixels(input, n) == run_pixels(color, depth, alpha, x, end)
        }),
{
    let n = end - x;
    let body = triples(color, depth, alpha, x, n);
    let input = word(SPR2_TRANSLUCENT, n) + body + padding(n) + rest;
    lemma_word(SPR2_TRANSLUCENT, n, body + padding(n) + rest);
    assert(input =~= word(SPR2_TRANSLUCENT, n) + (body + padding(n) + rest));
    assert(input.skip(2 + 3 * n + n % 2) =~= rest);
    let got = translucent_pixels(input, n);
    let want = run_pixels(color, depth, alpha, x, end);
    assert forall|j: int| 0 <= j < n implies got.color[j] == want.color[j] && got.depth[j]
        == want.depth[j] && got.alpha[j] == want.alpha[j] && 0 < #[trigger] input[2 + 3 * j + 2]
        < 31 by {
        assert(input[2 + 3 * j] == body[3 * j]);
        assert(input[2 + 3 * j + 1] == body[3 * j + 1]);
        assert(input[2 + 3 * j + 2] == body[3 * j + 2]);
        assert(kind_of(alpha[x + j]) == Coverage::Translucent);
        assert(alpha[x + j] % 8 == 0);
    }
    assert(got.color =~= want.color);
    assert(got.depth =~= want.depth);
    assert(got.alpha =~= want.alpha);
}

/// A run followed by the rest of its row is the row from the start of the
/// run on.
pub proof fn lemma_run_join(color: Seq<u8>, depth: Seq<u8>, alpha: Seq<u8>, x: int, end: int)
    requires
        color.len() == alpha.len(),
        depth.len() == alpha.len(),
        0 <= x <= end <= alpha.len(),
    ensures
        run_pixels(color, depth, alpha, x, end).join(
            Pixels { color: color.skip(end), depth: depth.skip(end), alpha: alpha.skip(end) },
        ) == (Pixels { color: color.skip(x), depth: depth.skip(x), alpha: alpha.skip(x) }),
        run_pixels(color, depth, alpha, x, alpha.len() as int) == (Pixels {
            color: color.skip(x),
            depth: depth.skip(x),
            alpha: alpha.skip(x),
        }),
{
    assert(color.subrange(x, end) + color.skip(end) =~= color.skip(x));
    assert(depth.subrange(x, end) + depth.skip(end) =~= depth.skip(x));
    assert(alpha.subrange(x, end) + alpha.skip(end) =~= alpha.skip(x));
    assert(color.subrange(x, alpha.len() as int) =~= color.skip(x));
    assert(depth.subrange(x, alpha.len() as int) =~= depth.skip(x));
    assert(alpha.subrange(x, alpha.len() as int) =~= alpha.skip(x));
}

/// The commands of a row are read back as the pixels of the row.
pub proof fn lemma_row_roundtrip(
    color: Seq<u8>,
    depth: Seq<u8>,
    alpha: Seq<u8>,
    x: int,
    transparent: u8,
)
    requires
        color.len() == alpha.len(),
        depth.len() == alpha.len(),
        0 <= x <= alpha.len(),
        normal_row(color, depth, alpha, transparent),
        row_fits(alpha, x),
    ensures
        decode_row(row_body(color, depth, alpha, x), alpha.len() as int, x, transparent) == Some(
            Pixels { color: color.skip(x), depth: depth.skip(x), alpha: alpha.skip(x) },
        ),
    decreases alpha.len() - x,
{
    let width = alpha.len() as int;
    let input = row_body(color, depth, alpha, x);
    if x >= width {
        lemma_blank_run(color, depth, alpha, x, width, transparent);
        lemma_run_join(color, depth, alpha, x, width);
    } else {
        lemma_run_end(alpha, x);
        let end = run_end(alpha, x);
        let n = end - x;
        let rest = row_body(color, depth, alpha, end);
        lemma_run_join(color, depth, alpha, x, end);
        match kind_of(alpha[x]) {
            Coverage::Transparent => {
                if end == width {
                    lemma_blank_run(color, depth, alpha, x, width, transparent);
                    assert(input =~= Seq::<u8>::empty());
                } else {
                    lemma_row_roundtrip(color, depth, alpha, end, transparent);
                    lemma_word(SPR2_TRANSPARENT, n, rest);
                    lemma_blank_run(color, depth, alpha, x, end, transparent);
                }
            },
            Coverage::Translucent => {
                lemma_row_roundtrip(color, depth, alpha, end, transparent);
                lemma_translucent_run(color, depth, alpha, x, end, rest);
            },
            Coverage::Opaque => {
                lemma_row_roundtrip(color, depth, alpha, end, transparent);
                lemma_opaque_run(color, depth, alpha, x, end, rest);
            },
        }
    }
}

/// The pixels of the frame from row `y` on.
pub open spec fn pixels_from(planes: Planes, y: int) -> Pixels {
    Pixels {
        color: planes.color.skip(y * planes.width),
        depth: planes.depth.skip(y * planes.width),
        alpha: planes.alpha.skip(y * planes.width),
    }
}

/// Whether the pixels of the planes are as the decoder gives them.
pub open spec fn normal_planes(planes: Planes, transparent: u8) -> bool {
    forall|i: int|
        0 <= i < planes.alpha.len() ==> (#[trigger] planes.alpha[i]) % 8 == 0 && (planes.alpha[i]
            == 0 ==> planes.color[i] == transparent && planes.depth[i] == SPR2_BLANK_DEPTH)
}

/// Sample `i` of row `y` is sample `y * width + i` of the plane, and the
/// rows up to `end` take `end * width` samples.
pub proof fn lemma_rows(width: int, height: int, y: int, end: int)
    requires
        0 <= width,
        0 <= y <= end <= height,
    ensures
        0 <= y * width <= end * width <= height * width,
        (y + 1) * width == y * width + width,
        (end - y) * width == end * width - y * width,
        width * height == height * width,
{
    assert(0 <= y * width <= end * width <= height * width && (y + 1) * width == y * width + width
        && (end - y) * width == end * width - y * width && width * height == height * width)
        by (nonlinear_arith)
        requires
            0 <= width,
            0 <= y <= end <= height,
    ;
}

/// A sample between the starts of two rows lies in a row between them.
pub proof fn lemma_row_of_sample(width: int, y: int, end: int, k: int)
    requires
        0 <= y <= end,
        0 <= width,
        y * width <= k < end * width,
    ensures
        width > 0,
        y <= k / width < end,
        0 <= k % width < width,
        k == (k / width) * width + k % width,
{
    assert(width > 0 && y <= k / width < end && 0 <= k % width < width && k == (k / width) * width
        + k % width) by (nonlinear_arith)
        requires
            0 <= y <= end,
            0 <= width,
            y * width <= k < end * width,
    ;
}

/// Rows of which nothing is drawn are read back as they are.
pub proof fn lemma_blank_rows(planes: Planes, y: int, end: int, transparent: u8)
    requires
        planes.wf(),
        0 <= y <= end <= planes.height,
        normal_planes(planes, transparent),
        forall|v: int| y <= v < end ==> #[trigger] planes.blank_at(v),
    ensures
        blank_pixels((end - y) * planes.width, transparent).join(pixels_from(planes, end))
            == pixels_from(planes, y),
{
    let width = planes.width;
    let height = planes.height;
    lemma_rows(width, height, y, end);
    lemma_rows(width, height, end, height);
    let got = blank_pixels((end - y) * width, transparent).join(pixels_from(planes, end));
    let want = pixels_from(planes, y);
    assert forall|k: int| y * width <= k < end * width implies planes.alpha[k] == 0
        && planes.color[k] == transparent && planes.depth[k] == SPR2_BLANK_DEPTH by {
        lemma_row_of_sample(width, y, end, k);
        let v = k / width;
        assert(planes.blank_at(v));
        lemma_rows(width, height, v, v + 1);
        lemma_rows(width, height, v + 1, height);
        assert(row_of(planes.alpha, width, v).len() == width);
        assert(row_of(planes.alpha, width, v)[k % width] == planes.alpha[v * width + k % width]);
        assert(kind_of(row_of(planes.alpha, width, v)[k % width]) == Coverage::Transparent);
        assert(planes.alpha[k] % 8 == 0);
    }
    assert forall|j: int| 0 <= j < want.alpha.len() implies got.color[j] == want.color[j]
        && got.depth[j] == want.depth[j] && got.alpha[j] == want.alpha[j] by {
        if j < (end - y) * width {
            assert(planes.alpha[y * width + j] == 0);
        }
    }
    assert(got.color =~= want.color);
    assert(got.depth =~= want.depth);
    assert(got.alpha =~= want.alpha);
}

/// A row of a frame, followed by the rows after it, is the frame from that
/// row on; and a row of planes in normal form is in normal form.
pub proof fn lemma_row_join(planes: Planes, y: int, transparent: u8)
    requires
        planes.wf(),
        0 <= y < planes.height,
        normal_planes(planes, transparent),
    ensures
        ({
            let color = row_of(planes.color, planes.width, y);
            let depth = row_of(planes.depth, planes.width, y);
            let alpha = row_of(planes.alpha, planes.width, y);
            &&& color.len() == planes.width
            &&& depth.len() == planes.width
            &&& alpha.len() == planes.width
            &&& normal_row(color, depth, alpha, transparent)
            &&& (Pixels { color: color.skip(0), depth: depth.skip(0), alpha: alpha.skip(0) }).join(
                pixels_from(planes, y + 1),
            ) == pixels_from(planes, y)
        }),
{
    let width = planes.width;
    let height = planes.height;
    let color = row_of(planes.color, width, y);
    let depth = row_of(planes.depth, width, y);
    let alpha = row_of(planes.alpha, width, y);
    lemma_rows(width, height, y, y + 1);
    lemma_rows(width, height, y + 1, height);
    assert forall|i: int| 0 <= i < alpha.len() implies (#[trigger] alpha[i]) % 8 == 0 && (alpha[i]
        == 0 ==> color[i] == transparent && depth[i] == SPR2_BLANK_DEPTH) by {
        assert(alpha[i] == planes.alpha[y * width + i]);
        assert(color[i] == planes.color[y * width + i]);
        assert(depth[i] == planes.depth[y * width + i]);
    }
    let got = (Pixels { color: color.skip(0), depth: depth.skip(0), alpha: alpha.skip(0) }).join(
        pixels_from(planes, y + 1),
    );
    let want = pixels_from(planes, y);
    assert(got.color =~= want.color);
    assert(got.depth =~= want.depth);
    assert(got.alpha =~= want.alpha);
}

/// The commands of the rows from `y` on, with the command that ends the
/// frame, are read back as the pixels of those rows.
pub proof fn lemma_rows_roundtrip(planes: Planes, y: int, transparent: u8)
    requires
        planes.wf(),
        0 <= y <= planes.height,
        normal_planes(planes, transparent),
        planes.rows_fit(y),
    ensures
        decode_rows(
            planes.rows_body(y) + word(SPR2_END, 0),
            planes.width,
            planes.height - y,
            transparent,
        ) == Some(pixels_from(planes, y)),
    decreases planes.height - y,
{
    let width = planes.width;
    let height = planes.height;
    let end_word = word(SPR2_END, 0);
    let input = planes.rows_body(y) + end_word;
    if y >= height {
        lemma_rows(width, height, y, height);
        lemma_word(SPR2_END, 0, Seq::empty());
        assert(input =~= end_word + Seq::<u8>::empty());
        let got = blank_pixels(0, transparent);
        let want = pixels_from(planes, y);
        assert(got.color =~= want.color);
        assert(got.depth =~= want.depth);
        assert(got.alpha =~= want.alpha);
    } else if planes.blank_at(y) {
        lemma_blank_end(planes, y);
        let end = planes.blank_end(y);
        let n = end - y;
        let rest = planes.rows_body(end) + end_word;
        lemma_rows_roundtrip(planes, end, transparent);
        lemma_word(SPR2_TRANSPARENT_ROWS, n, rest);
        assert(input =~= word(SPR2_TRANSPARENT_ROWS, n) + rest);
        lemma_blank_rows(planes, y, end, transparent);
    } else {
        let color = row_of(planes.color, width, y);
        let depth = row_of(planes.depth, width, y);
        let alpha = row_of(planes.alpha, width, y);
        let body = planes.row_commands(y);
        let rest = planes.rows_body(y + 1) + end_word;
        lemma_row_join(planes, y, transparent);
        lemma_row_roundtrip(color, depth, alpha, 0, transparent);
        lemma_rows_roundtrip(planes, y + 1, transparent);
        let size = 2 + body.len() as int;
        lemma_word(SPR2_START, size, body + rest);
        assert(input =~= word(SPR2_START, size) + (body + rest));
        assert(input.subrange(2, size) =~= body);
        assert(input.skip(size) =~= rest);
    }
}

/// The header of a frame is read back as it was written.
pub proof fn lemma_header_roundtrip(frame: Spr2FrameModel, rest: Seq<u8>)
    ensures
        frame.header().len() == 16,
        u16_le_at(frame.header() + rest, 0) == frame.width,
        u16_le_at(frame.header() + rest, 2) == frame.height,
        u32_le_at(frame.header() + rest, 4) == SPR2_FRAME_FLAGS,
        i16_of_bits(u16_le_at(frame.header() + rest, 8)) == frame.palette_id,
        u16_le_at(frame.header() + rest, 10) == frame.transparent_color_index,
        u16_le_at(frame.header() + rest, 12) == frame.top,
        u16_le_at(frame.header() + rest, 14) == frame.left,
        (frame.header() + rest).skip(16) == rest,
{
    let input = frame.header() + rest;
    let w = le_u16(frame.width);
    let h = le_u16(frame.height);
    let f = le_u32(SPR2_FRAME_FLAGS);
    let p = le_u16(i16_bits(frame.palette_id));
    let t = le_u16(frame.transparent_color_index as u16);
    let y = le_u16(frame.top);
    let x = le_u16(frame.left);
    let none = Seq::<u8>::empty();
    assert(input =~= none + w + (h + f + p + t + y + x + rest));
    lemma_u16_roundtrip(frame.width, none, h + f + p + t + y + x + rest);
    assert(input =~= w + h + (f + p + t + y + x + rest));
    lemma_u16_roundtrip(frame.height, w, f + p + t + y + x + rest);
    assert(input =~= (w + h) + f + (p + t + y + x + rest));
    crate::bytes::lemma_u32_roundtrip(SPR2_FRAME_FLAGS, w + h, p + t + y + x + rest);
    assert(input =~= (w + h + f) + p + (t + y + x + rest));
    lemma_u16_roundtrip(i16_bits(frame.palette_id), w + h + f, t + y + x + rest);
    crate::bytes::lemma_bits_roundtrip(frame.palette_id, 0);
    assert(input =~= (w + h + f + p) + t + (y + x + rest));
    lemma_u16_roundtrip(frame.transparent_color_index as u16, w + h + f + p, y + x + rest);
    assert(input =~= (w + h + f + p + t) + y + (x + rest));
    lemma_u16_roundtrip(frame.top, w + h + f + p + t, x + rest);
    assert(input =~= (w + h + f + p + t + y) + x + rest);
    lemma_u16_roundtrip(frame.left, w + h + f + p + t + y, rest);
    assert(input.skip(16) =~= rest);
}

/// Sprite codec round trip. A frame whose coverage values are whole parts
/// of 31, and whose pixels of which nothing is drawn are marked as the
/// decoder marks them, is read back from what was written for it exactly
/// as it is: header, colour, depth and alpha.
pub proof fn lemma_spr2_roundtrip(frame: Spr2FrameModel)
    requires
        frame.normal(),
        encode_frame(frame) is Ok,
    ensures
        decode_frame(encode_frame(frame)->Ok_0) == Some(frame),
{
    let planes = frame.planes();
    let commands = planes.commands();
    lemma_header_roundtrip(frame, commands);
    lemma_rows_roundtrip(planes, 0, frame.transparent_color_index);
    let decoded = decode_frame(frame.bytes())->Some_0;
    assert(planes.color.skip(0) =~= frame.color);
    assert(planes.depth.skip(0) =~= frame.depth);
    assert(planes.alpha.skip(0) =~= frame.alpha);
}

/// Whether two rows, or two planes, are drawn alike: every pixel is
/// covered by as many parts of 31 in the one as in the other, and a pixel
/// of which something is drawn has the same colour and depth in both.
pub open spec fn drawn_alike(
    color: Seq<u8>,
    depth: Seq<u8>,
    alpha: Seq<u8>,
    other_color: Seq<u8>,
    other_depth: Seq<u8>,
    other_alpha: Seq<u8>,
) -> bool {
    &&& color.len() == alpha.len()
    &&& depth.len() == alpha.len()
    &&& other_color.len() == alpha.len()
    &&& other_depth.len() == alpha.len()
    &&& other_alpha.len() == alpha.len()
    &&& forall|i: int|
        #![trigger alpha[i]]
        #![trigger other_alpha[i]]
        0 <= i < alpha.len() ==> coverage(alpha[i]) == coverage(other_alpha[i])
    &&& forall|i: int|
        #![trigger alpha[i]]
        #![trigger other_alpha[i]]
        0 <= i < alpha.len() && coverage(alpha[i]) != 0 ==> color[i] == other_color[i] && depth[i]
            == other_depth[i]
}

/// Rows with the same coverage have the same runs.
pub proof fn lemma_run_alike(alpha: Seq<u8>, other: Seq<u8>, x: int)
    requires
        other.len() == alpha.len(),
        forall|i: int|
            #![trigger alpha[i]]
            #![trigger other[i]]
            0 <= i < alpha.len() ==> coverage(alpha[i]) == coverage(other[i]),
    ensures
        run_end(alpha, x) == run_end(other, x),
    decreases alpha.len() - x,
{
    if 0 <= x && x + 1 < alpha.len() {
        assert(coverage(alpha[x]) == coverage(other[x]));
        assert(coverage(alpha[x + 1]) == coverage(other[x + 1]));
        if kind_of(alpha[x + 1]) == kind_of(alpha[x]) {
            lemma_run_alike(alpha, other, x + 1);
        }
    }
}

/// Rows that are drawn alike are written alike: what a pixel holds of
/// which nothing is drawn, and the low three bits of an alpha sample, do
/// not reach the commands.
pub proof fn lemma_row_alike(
    color: Seq<u8>,
    depth: Seq<u8>,
    alpha: Seq<u8>,
    other_color: Seq<u8>,
    other_depth: Seq<u8>,
    other_alpha: Seq<u8>,
    x: int,
)
    requires
        drawn_alike(color, depth, alpha, other_color, other_depth, other_alpha),
    ensures
        row_body(color, depth, alpha, x) == row_body(other_color, other_depth, other_alpha, x),
        row_fits(alpha, x) == row_fits(other_alpha, x),
    decreases alpha.len() - x,
{
    if 0 <= x < alpha.len() {
        lemma_run_end(alpha, x);
        lemma_run_alike(alpha, other_alpha, x);
        let end = run_end(alpha, x);
        let n = end - x;
        lemma_row_alike(color, depth, alpha, other_color, other_depth, other_alpha, end);
        assert(coverage(alpha[x]) == coverage(other_alpha[x]));
        match kind_of(alpha[x]) {
            Coverage::Transparent => {},
            Coverage::Translucent => {
                let a = triples(color, depth, alpha, x, n);
                let b = triples(other_color, other_depth, other_alpha, x, n);
                assert forall|k: int| 0 <= k < 3 * n implies a[k] == b[k] by {
                    let i = x + k / 3;
                    assert(x <= i < end);
                    assert(kind_of(alpha[i]) == kind_of(alpha[x]));
                    assert(coverage(alpha[i]) == coverage(other_alpha[i]));
                }
                assert(a =~= b);
            },
            Coverage::Opaque => {
                let a = pairs(color, depth, x, n);
                let b = pairs(other_color, other_depth, x, n);
                assert forall|k: int| 0 <= k < 2 * n implies a[k] == b[k] by {
                    let i = x + k / 2;
                    assert(x <= i < end);
                    assert(kind_of(alpha[i]) == kind_of(alpha[x]));
                    assert(coverage(alpha[i]) == coverage(other_alpha[i]));
                }
                assert(a =~= b);
            },
        }
    }
}

/// Whether two frames of one size are drawn alike.
pub open spec fn planes_alike(planes: Planes, other: Planes) -> bool {
    &&& planes.wf()
    &&& other.wf()
    &&& other.width == planes.width
    &&& other.height == planes.height
    &&& drawn_alike(
        planes.color,
        planes.depth,
        planes.alpha,
        other.color,
        other.depth,
        other.alpha,
    )
}

/// The rows of frames that are drawn alike are drawn alike.
pub proof fn lemma_row_of_alike(planes: Planes, other: Planes, y: int)
    requires
        planes_alike(planes, other),
        0 <= y < planes.height,
    ensures
        drawn_alike(
            row_of(planes.color, planes.width, y),
            row_of(planes.depth, planes.width, y),
            row_of(planes.alpha, planes.width, y),
            row_of(other.color, planes.width, y),
            row_of(other.depth, planes.width, y),
            row_of(other.alpha, planes.width, y),
        ),
        planes.blank_at(y) == other.blank_at(y),
{
    let w = planes.width;
    lemma_rows(w, planes.height, y, y + 1);
    let alpha = row_of(planes.alpha, w, y);
    let other_alpha = row_of(other.alpha, w, y);
    assert forall|i: int| 0 <= i < w implies coverage(#[trigger] alpha[i]) == coverage(
        other_alpha[i],
    ) && (coverage(alpha[i]) != 0 ==> row_of(planes.color, w, y)[i] == row_of(other.color, w, y)[i]
        && row_of(planes.depth, w, y)[i] == row_of(other.depth, w, y)[i]) by {
        assert(alpha[i] == planes.alpha[y * w + i]);
        assert(other_alpha[i] == other.alpha[y * w + i]);
    }
    assert forall|i: int| 0 <= i < w implies coverage(alpha[i]) == coverage(
        #[trigger] other_alpha[i],
    ) && (coverage(alpha[i]) != 0 ==> row_of(planes.color, w, y)[i] == row_of(other.color, w, y)[i]
        && row_of(planes.depth, w, y)[i] == row_of(other.depth, w, y)[i]) by {
        assert(alpha[i] == planes.alpha[y * w + i]);
    }
    if planes.blank_at(y) {
        assert forall|i: int| 0 <= i < w implies kind_of(#[trigger] other_alpha[i])
            == Coverage::Transparent by {
            assert(kind_of(alpha[i]) == Coverage::Transparent);
        }
    }
    if other.blank_at(y) {
        assert forall|i: int| 0 <= i < w implies kind_of(#[trigger] alpha[i])
            == Coverage::Transparent by {
            assert(kind_of(other_alpha[i]) == Coverage::Transparent);
        }
    }
}

/// Frames that are drawn alike have the same runs of blank rows.
pub proof fn lemma_blank_end_alike(planes: Planes, other: Planes, y: int)
    requires
        planes_alike(planes, other),
        0 <= y <= planes.height,
    ensures
        planes.blank_end(y) == other.blank_end(y),
    decreases planes.height - y,
{
    if y < planes.height {
        lemma_row_of_alike(planes, other, y);
        if planes.blank_at(y) {
            lemma_blank_end_alike(planes, other, y + 1);
        }
    }
}

/// Frames that are drawn alike are written alike.
pub proof fn lemma_rows_alike(planes: Planes, other: Planes, y: int)
    requires
        planes_alike(planes, other),
        0 <= y <= planes.height,
    ensures
        planes.rows_body(y) == other.rows_body(y),
        planes.rows_fit(y) == other.rows_fit(y),
    decreases planes.height - y,
{
    if y < planes.height {
        lemma_row_of_alike(planes, other, y);
        if planes.blank_at(y) {
            lemma_blank_end(planes, y);
            lemma_blank_end_alike(planes, other, y);
            lemma_rows_alike(planes, other, planes.blank_end(y));
        } else {
            lemma_row_alike(
                row_of(planes.color, planes.width, y),
                row_of(planes.depth, planes.width, y),
                row_of(planes.alpha, planes.width, y),
                row_of(other.color, planes.width, y),
                row_of(other.depth, planes.width, y),
                row_of(other.alpha, planes.width, y),
                0,
            );
            lemma_rows_alike(planes, other, y + 1);
        }
    }
}

impl Spr2FrameModel {
    /// The frame as it is read back after it was written: the coverage of
    /// every pixel without the low three bits of its alpha sample, and a
    /// pixel of which nothing is drawn with the colour that marks such
    /// pixels and the depth that lies behind everything.
    pub open spec fn normalized(self) -> Spr2FrameModel {
        Spr2FrameModel {
            color: Seq::new(
                self.alpha.len(),
                |i: int|
                    if coverage(self.alpha[i]) == 0 {
                        self.transparent_color_index
                    } else {
                        self.color[i]
                    },
            ),
            depth: Seq::new(
                self.alpha.len(),
                |i: int|
                    if coverage(self.alpha[i]) == 0 {
                        SPR2_BLANK_DEPTH
                    } else {
                        self.depth[i]
                    },
            ),
            alpha: Seq::new(self.alpha.len(), |i: int| (coverage(self.alpha[i]) * 8) as u8),
            ..self
        }
    }
}

/// Sprite codec round trip for any frame. Whatever the pixels of a frame
/// hold, the frame is written as the frame that will be read back is
/// written, and what is read back is that frame: the header, the coverage
/// of every pixel, and the colour and depth of every pixel of which
/// something is drawn.
pub proof fn lemma_spr2_roundtrip_any(frame: Spr2FrameModel)
    requires
        encode_frame(frame) is Ok,
    ensures
        frame.normalized().normal(),
        encode_frame(frame.normalized()) == encode_frame(frame),
        decode_frame(encode_frame(frame)->Ok_0) == Some(frame.normalized()),
{
    let read = frame.normalized();
    assert forall|i: int| 0 <= i < frame.alpha.len() implies coverage(#[trigger] read.alpha[i])
        == coverage(frame.alpha[i]) && read.alpha[i] % 8 == 0 by {
        let c = coverage(frame.alpha[i]);
        assert(0 <= c <= 31);
        assert(read.alpha[i] == c * 8);
    }
    assert(planes_alike(frame.planes(), read.planes()));
    lemma_rows_alike(frame.planes(), read.planes(), 0);
    assert(read.header() == frame.header());
    assert(read.normal());
    lemma_spr2_roundtrip(read);
}

/// Where every row from `y` on is blank, the blank rows end with the
/// frame.
pub proof fn lemma_all_blank(planes: Planes, y: int)
    requires
        0 <= y <= planes.height,
        forall|v: int| 0 <= v < planes.height ==> #[trigger] planes.blank_at(v),
    ensures
        planes.blank_end(y) == planes.height,
    decreases planes.height - y,
{
    if y < planes.height {
        assert(planes.blank_at(y));
        lemma_all_blank(planes, y + 1);
    }
}

/// Boundary. A frame of which nothing is drawn is written as one command
/// for all its rows, followed by the command that ends the frame; a frame
/// without rows is that last command alone.
pub proof fn lemma_blank_frame(planes: Planes)
    requires
        planes.wf(),
        forall|v: int| 0 <= v < planes.height ==> #[trigger] planes.blank_at(v),
    ensures
        planes.height == 0 ==> planes.commands() == word(SPR2_END, 0),
        planes.height > 0 ==> planes.commands() == word(
            SPR2_TRANSPARENT_ROWS,
            planes.height,
        ) + word(SPR2_END, 0),
        planes.rows_fit(0) <==> planes.height <= 8191,
{
    if planes.height == 0 {
        assert(planes.rows_body(0) =~= Seq::<u8>::empty());
        assert(planes.commands() =~= word(SPR2_END, 0));
    } else {
        assert(planes.blank_at(0));
        lemma_all_blank(planes, 0);
        let end = planes.blank_end(0);
        assert(planes.rows_body(end) =~= Seq::<u8>::empty());
        assert(planes.rows_fit(end));
        assert(planes.rows_body(0) =~= word(SPR2_TRANSPARENT_ROWS, planes.height));
    }
}

} // verus!
