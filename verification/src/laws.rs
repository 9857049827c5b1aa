//! Laws of the rendering pipeline that relate several of its pieces:
//! what supersampling can and cannot change, the symmetry the raster
//! inherits from its escape counts, and the agreement between the CPU
//! pipeline and the integer stage of the GPU kernels.

use vstd::prelude::*;
use vstd::arithmetic::div_mod::{lemma_div_basics, lemma_div_multiples_vanish, lemma_small_mod};
use vstd::arithmetic::mul::lemma_mul_is_commutative;
use crate::colour::{colour_word, effective_flags_of};
use crate::params::Options;
use crate::raster::{
    accepted_total, averaged_iter, pixel_spec, raster_spec, subsample_count,
};

verus! {

/// Subsamples that all exhausted the budget contribute nothing.
proof fn lemma_accepted_total_exhausted(counts: Seq<u32>, max_iter: u32)
    requires
        forall|k: int| 0 <= k < counts.len() ==> counts[k] > max_iter,
    ensures
        accepted_total(counts, max_iter) == 0,
    decreases counts.len(),
{
    if counts.len() == 0 {
    } else {
        lemma_accepted_total_exhausted(counts.drop_last(), max_iter);
    }
}

/// Subsamples that all escaped at the same accepted count sum to one
/// count per subsample.
proof fn lemma_accepted_total_uniform(counts: Seq<u32>, max_iter: u32, k: u32)
    requires
        k <= max_iter,
        forall|j: int| 0 <= j < counts.len() ==> counts[j] == k,
    ensures
        accepted_total(counts, max_iter) == counts.len() * k,
    decreases counts.len(),
{
    if counts.len() == 0 {
    } else {
        lemma_accepted_total_uniform(counts.drop_last(), max_iter, k);
        assert((counts.len() - 1) * k + k == counts.len() * k) by (nonlinear_arith);
    }
}

/// Black interior: a pixel whose every subsample exhausted the iteration
/// budget averages to zero and encodes to the black word `0x000000`,
/// whatever the supersampling grid side and whatever the channel mask.
pub proof fn lemma_interior_black(counts: Seq<u32>, o: Options, flags: int)
    requires
        counts.len() > 0,
        o.max_iter > 0,
        o.max_colours > 0,
        forall|k: int| 0 <= k < counts.len() ==> counts[k] > o.max_iter,
    ensures
        pixel_spec(counts, o, flags) == 0,
{
    lemma_accepted_total_exhausted(counts, o.max_iter);
    lemma_div_basics(counts.len() as int);
    assert(averaged_iter(counts, o.max_iter) == 0);
    assert(crate::colour::scaled_intensity(0, o.max_colours as int, o.max_iter as int) == 0) by {
        assert(0 * (o.max_colours as int) == 0);
        lemma_div_basics(o.max_iter as int);
        assert(0int / (o.max_iter as int) == 0);
        lemma_small_mod(0nat, o.max_colours as nat);
        assert(0int % (o.max_colours as int) == 0);
    }
    assert(crate::colour::channel_multiplier(flags) * 0 == 0);
}

/// A pixel whose every subsample escaped at the same accepted count gets
/// that count as its average, and so the same colour at every
/// supersampling grid side — in particular a pixel that is fully outside
/// from the first iteration, whose every subsample escapes at count one.
pub proof fn lemma_uniform_counts(counts: Seq<u32>, o: Options, flags: int, k: u32)
    requires
        counts.len() > 0,
        k <= o.max_iter,
        forall|j: int| 0 <= j < counts.len() ==> counts[j] == k,
    ensures
        pixel_spec(counts, o, flags) == colour_word(
            k as int,
            o.max_colours as int,
            o.max_iter as int,
            flags,
        ),
{
    lemma_accepted_total_uniform(counts, o.max_iter, k);
    lemma_mul_is_commutative(counts.len() as int, k as int);
    lemma_div_multiples_vanish(k as int, counts.len() as int);
    assert(averaged_iter(counts, o.max_iter) == k as int);
}

/// Supersampling invariance at the extremes: two subsample grids of any
/// two sides give a pixel the same value when every subsample repeats one
/// count — fully inside (every subsample exhausts the budget, the pixel
/// stays black) and uniformly escaping (the pixel keeps its colour).
pub proof fn lemma_supersampling_invariance(
    counts_a: Seq<u32>,
    counts_b: Seq<u32>,
    o: Options,
    flags: int,
    k: u32,
)
    requires
        counts_a.len() > 0,
        counts_b.len() > 0,
        o.max_iter > 0,
        o.max_colours > 0,
        forall|j: int| 0 <= j < counts_a.len() ==> counts_a[j] == k,
        forall|j: int| 0 <= j < counts_b.len() ==> counts_b[j] == k,
    ensures
        pixel_spec(counts_a, o, flags) == pixel_spec(counts_b, o, flags),
{
    if k <= o.max_iter {
        lemma_uniform_counts(counts_a, o, flags, k);
        lemma_uniform_counts(counts_b, o, flags, k);
    } else {
        lemma_interior_black(counts_a, o, flags);
        lemma_interior_black(counts_b, o, flags);
    }
}

/// Vertical symmetry: with one subsample per pixel and escape counts
/// symmetric about the horizontal midline — as conjugate points give when
/// the viewport is centred on the real axis — the raster is symmetric
/// about the midline too.
pub proof fn lemma_render_symmetric(o: Options, counts: Seq<u32>, flags: int, ix: int, iy: int)
    requires
        o.samples == 1,
        counts.len() == o.width * o.height,
        0 <= ix < o.width,
        0 <= iy < o.height,
        counts[(o.height - 1 - iy) * o.width + ix] == counts[iy * o.width + ix],
    ensures
        raster_spec(o, counts, flags)[iy * o.width + ix] == raster_spec(o, counts, flags)[(o.height
            - 1 - iy) * o.width + ix],
{
    let i1 = iy * o.width + ix;
    let i2 = (o.height - 1 - iy) * o.width + ix;
    assert(0 <= i1 < o.width * o.height && 0 <= i2 < o.width * o.height) by (nonlinear_arith)
        requires
            0 <= ix < o.width,
            0 <= iy < o.height,
            i1 == iy * o.width + ix,
            i2 == (o.height - 1 - iy) * o.width + ix,
    ;
    assert(subsample_count(o) == 1);
    assert(counts.subrange(i1 * 1, (i1 + 1) * 1) =~= counts.subrange(i2 * 1, (i2 + 1) * 1));
}

/// Colour mask: in a rendered pixel a channel byte can be nonzero only if
/// that channel's bit is set in the mask. Needs a colour depth of at most
/// 256 levels; a deeper depth lets the intensity spill across byte lanes.
pub proof fn lemma_pixel_channel_mask(counts: Seq<u32>, o: Options, flags: int)
    requires
        counts.len() > 0,
        o.max_iter > 0,
        0 < o.max_colours <= 256,
        0 <= flags <= 7,
    ensures
        pixel_spec(counts, o, flags) % 0x100 != 0 ==> flags % 2 == 1,
        (pixel_spec(counts, o, flags) / 0x100) % 0x100 != 0 ==> (flags / 2) % 2 == 1,
        (pixel_spec(counts, o, flags) / 0x10000) % 0x100 != 0 ==> (flags / 4) % 2 == 1,
        pixel_spec(counts, o, flags) / 0x1000000 == 0,
{
    let avg = averaged_iter(counts, o.max_iter);
    let c = crate::colour::scaled_intensity(avg, o.max_colours as int, o.max_iter as int);
    crate::colour::lemma_colour_channels(avg, o.max_colours as int, o.max_iter as int, flags);
    if flags % 2 == 0 {
        assert(crate::colour::red_bit(flags) * c == 0) by (nonlinear_arith)
            requires
                crate::colour::red_bit(flags) == 0,
        ;
    }
    if (flags / 2) % 2 == 0 {
        assert(crate::colour::green_bit(flags) * c == 0) by (nonlinear_arith)
            requires
                crate::colour::green_bit(flags) == 0,
        ;
    }
    if (flags / 4) % 2 == 0 {
        assert(crate::colour::blue_bit(flags) * c == 0) by (nonlinear_arith)
            requires
                crate::colour::blue_bit(flags) == 0,
        ;
    }
}

/// The value of a pixel in the GPU kernels: the same averaging and
/// encoding as the CPU path, with the colour depth pinned to 256 and the
/// channel mask to white, as both device kernels hard-code them.
pub open spec fn gpu_pixel_spec(counts: Seq<u32>, max_iter: u32) -> int {
    colour_word(averaged_iter(counts, max_iter), 256, max_iter as int, 7)
}

/// The raster the GPU backends compute from given escape counts: one
/// invocation per pixel, writing `gpu_pixel_spec` of its subsample window.
pub open spec fn gpu_raster_spec(o: Options, counts: Seq<u32>) -> Seq<u32> {
    Seq::new(
        (o.width * o.height) as nat,
        |i: int|
            gpu_pixel_spec(
                counts.subrange(i * subsample_count(o), (i + 1) * subsample_count(o)),
                o.max_iter,
            ) as u32,
    )
}

/// Backend parity at the encoding stage: under the canonical colour depth
/// of 256 and the white channel mask — the values the GPU kernels
/// hard-code — the CPU pipeline and the GPU kernels turn the same escape
/// counts into the same raster, bit for bit.
pub proof fn lemma_backend_parity(o: Options, counts: Seq<u32>)
    requires
        o.max_colours == 256,
        o.colour == 7,
        !o.colourise,
    ensures
        raster_spec(o, counts, effective_flags_of(o)) == gpu_raster_spec(o, counts),
{
    assert(effective_flags_of(o) == 7);
    assert(raster_spec(o, counts, effective_flags_of(o)) =~= gpu_raster_spec(o, counts));
}

} // verus!
