//! Reduction of colour channels to the bits that the display keeps.

use vstd::prelude::*;

verus! {

/// The sample `color` reduced to its top `8 - bits` bits, with the `bits`
/// bits below them filled from the top of the sample, so that the darkest
/// value stays 0 and the brightest stays 255.
pub open spec fn posterized(color: u8, bits: u8) -> u8 {
    (color & !(((1u8 << bits) - 1) as u8)) | (color >> ((8 - bits) as u8))
}

/// Reduces a sample to its top `8 - bits` bits and fills the bits below
/// with the top bits of the sample.
pub fn posterize(color: u8, bits: u8) -> (r: u8)
    requires
        1 <= bits <= 7,
    ensures
        r == posterized(color, bits),
        r >> bits == color >> bits,
        r & (((1u8 << bits) - 1) as u8) == color >> ((8 - bits) as u8),
{
    assert(1u8 << bits >= 1 && (1u8 << bits) <= 128) by (bit_vector)
        requires
            1 <= bits <= 7,
    ;
    let mask: u8 = (1u8 << bits) - 1;
    let r = (color & !mask) | (color >> (8 - bits));
    assert(r >> bits == color >> bits && r & mask == color >> ((8 - bits) as u8)) by (bit_vector)
        requires
            1 <= bits <= 7,
            mask == ((1u8 << bits) - 1) as u8,
            r == (color & !mask) | (color >> ((8 - bits) as u8)),
    ;
    r
}

/// Reducing a sample that was reduced already changes nothing, where as
/// many bits are kept as are filled in or more.
pub proof fn lemma_posterize_twice(color: u8, bits: u8)
    requires
        1 <= bits <= 4,
    ensures
        posterized(posterized(color, bits), bits) == posterized(color, bits),
{
    assert(posterized(posterized(color, bits), bits) == posterized(color, bits)) by (bit_vector)
        requires
            1 <= bits <= 4,
    ;
}

} // verus!
