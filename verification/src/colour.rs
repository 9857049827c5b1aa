//! The colour encoder: maps an averaged escape count to a packed RGB word.
//!
//! A pixel word keeps the red byte in bits 7..0, the green byte in bits
//! 15..8, the blue byte in bits 23..16; bits 31..24 stay zero. The scaled
//! intensity is copied into the byte lanes selected by a 3-bit channel mask.

use vstd::prelude::*;
use vstd::arithmetic::power2::is_pow2;
use vstd::arithmetic::div_mod::{lemma_fundamental_div_mod_converse, lemma_mod_bound};
use vstd::arithmetic::mul::lemma_mul_upper_bound;
use crate::bits::lemma_mask_is_mod;
use crate::params::Options;

verus! {

/// Bit 0 of the channel mask: carries red.
pub open spec fn red_bit(flags: int) -> int {
    flags % 2
}

/// Bit 1 of the channel mask: carries green.
pub open spec fn green_bit(flags: int) -> int {
    (flags / 2) % 2
}

/// Bit 2 of the channel mask: carries blue.
pub open spec fn blue_bit(flags: int) -> int {
    (flags / 4) % 2
}

/// The word that copies an intensity into every byte lane the mask selects:
/// one unit in each selected lane.
pub open spec fn channel_multiplier(flags: int) -> int {
    0x10000 * blue_bit(flags) + 0x100 * green_bit(flags) + red_bit(flags)
}

/// The intensity of an averaged escape count: scaled to the colour depth
/// and reduced into `[0, max_colours)`.
pub open spec fn scaled_intensity(iter: int, max_colours: int, max_iter: int) -> int {
    (iter * max_colours / max_iter) % max_colours
}

/// The packed RGB word of an averaged escape count under a channel mask.
pub open spec fn colour_word(iter: int, max_colours: int, max_iter: int, flags: int) -> int {
    channel_multiplier(flags) * scaled_intensity(iter, max_colours, max_iter)
}

/// Encodes an averaged escape count as a packed RGB word: the intensity
/// `iter * max_colours / max_iter`, masked into the colour depth, placed in
/// the byte lanes that `flags` selects.
pub fn iterations2colour(options: &Options, iter: u32, max_iter: u32, flags: u32) -> (r: u32)
    requires
        max_iter > 0,
        is_pow2(options.max_colours as int),
        flags <= 7,
        iter * options.max_colours <= u32::MAX,
        0x10101 * (options.max_colours - 1) <= u32::MAX,
    ensures
        r == colour_word(iter as int, options.max_colours as int, max_iter as int, flags as int),
{
    let mc = options.max_colours;
    proof {
        lemma_mask_is_mod(0, mc);
    }
    let q = iter * mc / max_iter;
    let scaled = q & (mc - 1);
    proof {
        lemma_mask_is_mod(q, mc);
        lemma_mod_bound(q as int, mc as int);
    }
    let mult = ((flags & 4) << 14) | ((flags & 2) << 7) | (flags & 1);
    proof {
        assert((((flags & 4) << 14) | ((flags & 2) << 7) | (flags & 1)) == 0x10000 * ((flags / 4)
            % 2) + 0x100 * ((flags / 2) % 2) + flags % 2 && (((flags & 4) << 14) | ((flags & 2)
            << 7) | (flags & 1)) <= 0x10101) by (bit_vector)
            requires
                flags <= 7,
        ;
        lemma_mul_upper_bound(mult as int, 0x10101, scaled as int, mc - 1);
    }
    mult * scaled
}

/// The channel mask a CPU worker renders with: its own hue when per-worker
/// colouring is on, the configured mask otherwise.
pub open spec fn effective_flags_of(o: Options) -> int {
    if o.colourise {
        o.thread_id->Some_0 % 7 + 1
    } else {
        o.colour as int
    }
}

/// Picks the channel mask for a worker's render. Per-worker colouring needs
/// an assigned worker id.
pub fn effective_flags(options: &Options) -> (r: u32)
    requires
        options.colourise ==> options.thread_id is Some,
    ensures
        r == effective_flags_of(*options),
        options.colourise ==> 1 <= r <= 7,
        options.colour <= 7 ==> r <= 7,
{
    if options.colourise {
        match options.thread_id {
            Some(t) => t % 7 + 1,
            None => 0,
        }
    } else {
        options.colour
    }
}

/// Splits a pixel word into its red, green and blue bytes, as the image
/// adapter consumes them.
pub fn split_channels(w: u32) -> (r: (u8, u8, u8))
    ensures
        r.0 == (w as int) % 0x100,
        r.1 == ((w as int) / 0x100) % 0x100,
        r.2 == ((w as int) / 0x10000) % 0x100,
{
    proof {
        assert((w & 0xff) == w % 0x100 && (w & 0xff) < 0x100 && ((w >> 8) & 0xff) == (w / 0x100)
            % 0x100 && ((w >> 8) & 0xff) < 0x100 && ((w >> 16) & 0xff) == (w / 0x10000) % 0x100 && (
        (w >> 16) & 0xff) < 0x100) by (bit_vector);
    }
    let red = (w & 0xff) as u8;
    let green = ((w >> 8) & 0xff) as u8;
    let blue = ((w >> 16) & 0xff) as u8;
    (red, green, blue)
}

/// The colour word is nonnegative and fits a 32-bit pixel whenever the
/// byte-lane product cannot overflow.
pub proof fn lemma_colour_word_bounds(iter: int, max_colours: int, max_iter: int, flags: int)
    requires
        0 < max_iter,
        0 < max_colours,
        0 <= flags <= 7,
        0x10101 * (max_colours - 1) <= u32::MAX,
    ensures
        0 <= colour_word(iter, max_colours, max_iter, flags) <= u32::MAX,
{
    let c = scaled_intensity(iter, max_colours, max_iter);
    lemma_mod_bound(iter * max_colours / max_iter, max_colours);
    lemma_mod_bound(flags, 2);
    lemma_mod_bound(flags / 2, 2);
    lemma_mod_bound(flags / 4, 2);
    let m = channel_multiplier(flags);
    assert(0 <= m <= 0x10101);
    lemma_mul_upper_bound(m, 0x10101, c, max_colours - 1);
    vstd::arithmetic::mul::lemma_mul_nonnegative(m, c);
}

/// Channel isolation: under a colour depth of at most 256 levels, each byte
/// lane of a pixel word holds the intensity exactly when its channel bit is
/// set, and holds zero otherwise; the top byte is always zero. A deeper
/// colour depth would let the intensity spill across lanes.
pub proof fn lemma_colour_channels(iter: int, max_colours: int, max_iter: int, flags: int)
    requires
        0 < max_iter,
        0 < max_colours <= 256,
        0 <= flags <= 7,
    ensures
        colour_word(iter, max_colours, max_iter, flags) % 0x100 == red_bit(flags)
            * scaled_intensity(iter, max_colours, max_iter),
        (colour_word(iter, max_colours, max_iter, flags) / 0x100) % 0x100 == green_bit(flags)
            * scaled_intensity(iter, max_colours, max_iter),
        (colour_word(iter, max_colours, max_iter, flags) / 0x10000) % 0x100 == blue_bit(flags)
            * scaled_intensity(iter, max_colours, max_iter),
        colour_word(iter, max_colours, max_iter, flags) / 0x1000000 == 0,
        0 <= colour_word(iter, max_colours, max_iter, flags) <= 0xFFFFFF,
{
    let c = scaled_intensity(iter, max_colours, max_iter);
    lemma_mod_bound(iter * max_colours / max_iter, max_colours);
    assert(0 <= c <= 255);
    let b0 = red_bit(flags);
    let b1 = green_bit(flags);
    let b2 = blue_bit(flags);
    lemma_mod_bound(flags, 2);
    lemma_mod_bound(flags / 2, 2);
    lemma_mod_bound(flags / 4, 2);
    assert(0 <= b0 <= 1 && 0 <= b1 <= 1 && 0 <= b2 <= 1);
    let w = colour_word(iter, max_colours, max_iter, flags);
    lemma_mul_upper_bound(b0, 1, c, 255);
    lemma_mul_upper_bound(b1, 1, c, 255);
    lemma_mul_upper_bound(b2, 1, c, 255);
    assert(b0 * c >= 0 && b1 * c >= 0 && b2 * c >= 0) by (nonlinear_arith)
        requires
            0 <= b0 && 0 <= b1 && 0 <= b2 && 0 <= c,
    ;
    assert(w == (0x100 * (b2 * c) + b1 * c) * 0x100 + b0 * c) by (nonlinear_arith)
        requires
            w == (0x10000 * b2 + 0x100 * b1 + b0) * c,
    ;
    lemma_fundamental_div_mod_converse(w, 0x100, 0x100 * (b2 * c) + b1 * c, b0 * c);
    let q1 = 0x100 * (b2 * c) + b1 * c;
    lemma_fundamental_div_mod_converse(q1, 0x100, b2 * c, b1 * c);
    lemma_fundamental_div_mod_converse(b2 * c, 0x100, 0, b2 * c);
    assert(w <= 0x10101 * 255) by (nonlinear_arith)
        requires
            w == (0x10000 * b2 + 0x100 * b1 + b0) * c,
            0 <= b0 <= 1 && 0 <= b1 <= 1 && 0 <= b2 <= 1,
            0 <= c <= 255,
    ;
    lemma_fundamental_div_mod_converse(w, 0x1000000, 0, w);
}

} // verus!
