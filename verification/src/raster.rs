//! The raster pipeline: from per-subsample escape counts to the finished
//! row-major raster.
//!
//! The floating-point escape-time loop runs outside the library; what it
//! produces for each subsample is its escape count, the iteration at which
//! the orbit left the bailout circle, or `max_iter + 1` when the budget ran
//! out. Everything after that — accepting and averaging the counts of a
//! pixel, encoding the colour, claiming rows from the shared ticket,
//! emitting `(index, colour)` messages, and draining them into the raster —
//! is integer work and is verified here.

use vstd::prelude::*;
use vstd::arithmetic::power2::is_pow2;
use vstd::arithmetic::div_mod::{lemma_div_is_ordered, lemma_div_multiples_vanish};
use vstd::arithmetic::mul::lemma_mul_inequality;
use crate::colour::{
    colour_word, effective_flags, effective_flags_of, iterations2colour, lemma_colour_word_bounds,
};
use crate::params::Options;

verus! {

/// Number of subsamples each pixel averages over.
pub open spec fn subsample_count(o: Options) -> int {
    o.samples * o.samples
}

/// Machine-range side conditions of the CPU pipeline: the channel mask is
/// three bits, every intermediate of the averaging and encoding arithmetic
/// fits a `u32`, pixel indices fit the index word of a message, and the row
/// ticket can pass the last row.
pub open spec fn cpu_bounds(o: Options) -> bool {
    &&& o.width > 0
    &&& o.height > 0
    &&& o.max_iter > 0
    &&& o.samples > 0
    &&& is_pow2(o.max_colours as int)
    &&& o.colour <= 7
    &&& o.samples * o.samples * o.max_iter <= u32::MAX
    &&& o.max_iter * o.max_colours <= u32::MAX
    &&& 0x10101 * (o.max_colours - 1) <= u32::MAX
    &&& o.width * o.height <= u32::MAX
    &&& o.height < u32::MAX
}

/// Sum of the accepted escape counts of one pixel's subsamples: a
/// subsample contributes its count only when it stayed within the
/// iteration budget; an exhausted subsample contributes nothing.
pub open spec fn accepted_total(counts: Seq<u32>, max_iter: u32) -> int
    decreases counts.len(),
{
    if counts.len() == 0 {
        0
    } else {
        accepted_total(counts.drop_last(), max_iter) + if counts.last() <= max_iter {
            counts.last() as int
        } else {
            0int
        }
    }
}

/// Appending one subsample adds its accepted contribution.
proof fn lemma_accepted_total_push(counts: Seq<u32>, max_iter: u32, x: u32)
    ensures
        accepted_total(counts.push(x), max_iter) == accepted_total(counts, max_iter) + if x
            <= max_iter {
            x as int
        } else {
            0int
        },
{
    assert(counts.push(x).drop_last() =~= counts);
}

/// The accepted sum is at most one full budget per subsample.
proof fn lemma_accepted_total_bound(counts: Seq<u32>, max_iter: u32)
    ensures
        0 <= accepted_total(counts, max_iter) <= counts.len() * max_iter,
    decreases counts.len(),
{
    if counts.len() == 0 {
    } else {
        lemma_accepted_total_bound(counts.drop_last(), max_iter);
        assert((counts.len() - 1) * max_iter + max_iter == counts.len() * max_iter)
            by (nonlinear_arith);
    }
}

/// The per-pixel average: the accepted counts, integer-divided by
/// the size of the subsample grid.
pub open spec fn averaged_iter(counts: Seq<u32>, max_iter: u32) -> int {
    accepted_total(counts, max_iter) / counts.len() as int
}

/// The finished value of one pixel, given its subsample escape counts: the
/// average, encoded as a packed RGB word under the given channel mask.
pub open spec fn pixel_spec(counts: Seq<u32>, o: Options, flags: int) -> int {
    colour_word(
        averaged_iter(counts, o.max_iter),
        o.max_colours as int,
        o.max_iter as int,
        flags,
    )
}

/// Claims a work ticket: hands out the current next-row value and advances
/// the counter, so each row index is claimed exactly once per render.
pub fn interlocked_increment(current_line: &mut u32) -> (r: u32)
    requires
        *old(current_line) < u32::MAX,
    ensures
        r == *old(current_line),
        *final(current_line) == *old(current_line) + 1,
{
    let temp = *current_line;
    *current_line = *current_line + 1;
    temp
}

/// Computes one pixel's colour from the escape counts of its subsample
/// window `[start, start + samples²)`.
pub fn pixel_value(options: &Options, counts: &Vec<u32>, start: usize, flags: u32) -> (c: u32)
    requires
        cpu_bounds(*options),
        flags <= 7,
        start + subsample_count(*options) <= counts@.len(),
    ensures
        c == pixel_spec(
            counts@.subrange(start as int, start + subsample_count(*options)),
            *options,
            flags as int,
        ),
{
    proof {
        assert(options.samples * options.samples >= 1 && options.samples * options.samples
            <= options.samples * options.samples * options.max_iter) by (nonlinear_arith)
            requires
                options.max_iter >= 1,
                options.samples >= 1,
        ;
    }
    let ss = options.samples * options.samples;
    let n = counts.len();
    let window = Ghost(counts@.subrange(start as int, start + ss as int));
    let mut total: u32 = 0;
    let mut j: usize = 0;
    while j < ss as usize
        invariant
            cpu_bounds(*options),
            ss == options.samples * options.samples,
            ss >= 1,
            j <= ss,
            n == counts@.len(),
            start + ss <= n,
            window@ == counts@.subrange(start as int, start + ss as int),
            total == accepted_total(window@.subrange(0, j as int), options.max_iter),
            total <= j * options.max_iter,
        decreases ss - j,
    {
        let cnt = counts[start + j];
        proof {
            assert(window@.subrange(0, j + 1) =~= window@.subrange(0, j as int).push(
                window@[j as int],
            ));
            lemma_accepted_total_push(
                window@.subrange(0, j as int),
                options.max_iter,
                window@[j as int],
            );
        }
        if cnt <= options.max_iter {
            proof {
                assert(total + cnt <= (j + 1) * options.max_iter && (j + 1) * options.max_iter
                    <= ss * options.max_iter) by (nonlinear_arith)
                    requires
                        0 <= j < ss,
                        total <= j * options.max_iter,
                        cnt <= options.max_iter,
                ;
            }
            total = total + cnt;
        } else {
            proof {
                assert(total <= (j + 1) * options.max_iter) by (nonlinear_arith)
                    requires
                        total <= j * options.max_iter,
                        0 <= j,
                        options.max_iter >= 0,
                ;
            }
        }
        j = j + 1;
    }
    proof {
        assert(window@.subrange(0, ss as int) =~= window@);
        lemma_accepted_total_bound(window@, options.max_iter);
        lemma_div_is_ordered(
            accepted_total(window@, options.max_iter),
            ss as int * options.max_iter,
            ss as int,
        );
        lemma_div_multiples_vanish(options.max_iter as int, ss as int);
        assert(ss as int * options.max_iter == ss as int * (options.max_iter as int));
    }
    let avg = total / ss;
    proof {
        lemma_mul_inequality(avg as int, options.max_iter as int, options.max_colours as int);
    }
    iterations2colour(options, avg, options.max_iter, flags)
}

/// The raster of a render: row-major, one 32-bit word per pixel;
/// pixel `i` averages the subsample window `[i·samples², (i+1)·samples²)`
/// of the escape counts.
pub open spec fn raster_spec(o: Options, counts: Seq<u32>, flags: int) -> Seq<u32> {
    Seq::new(
        (o.width * o.height) as nat,
        |i: int|
            pixel_spec(
                counts.subrange(i * subsample_count(o), (i + 1) * subsample_count(o)),
                o,
                flags,
            ) as u32,
    )
}

/// The messages a worker emits for one row: each column's pixel index
/// paired with that pixel's colour.
pub open spec fn row_messages(o: Options, counts: Seq<u32>, flags: int, iy: int) -> Seq<(u32, u32)> {
    Seq::new(
        o.width as nat,
        |ix: int|
            (
                ((iy * o.width + ix) as u32),
                raster_spec(o, counts, flags)[iy * o.width + ix],
            ),
    )
}

/// The messages for the block of rows `[from, to)`, top row first.
pub open spec fn rows_messages(
    o: Options,
    counts: Seq<u32>,
    flags: int,
    from: int,
    to: int,
) -> Seq<(u32, u32)>
    decreases to - from,
{
    if from >= to {
        Seq::empty()
    } else {
        row_messages(o, counts, flags, from) + rows_messages(o, counts, flags, from + 1, to)
    }
}

/// Extending a block of rows at the bottom appends that row's messages.
proof fn lemma_rows_messages_snoc(o: Options, counts: Seq<u32>, flags: int, from: int, to: int)
    requires
        from <= to,
    ensures
        rows_messages(o, counts, flags, from, to + 1) == rows_messages(o, counts, flags, from, to)
            + row_messages(o, counts, flags, to),
    decreases to - from,
{
    if from == to {
        assert(rows_messages(o, counts, flags, from + 1, to + 1) =~= Seq::empty());
        assert(rows_messages(o, counts, flags, from, to) =~= Seq::empty());
        assert(rows_messages(o, counts, flags, from, to + 1) =~= rows_messages(
            o,
            counts,
            flags,
            from,
            to,
        ) + row_messages(o, counts, flags, to));
    } else {
        lemma_rows_messages_snoc(o, counts, flags, from + 1, to);
        assert(rows_messages(o, counts, flags, from, to + 1) == row_messages(o, counts, flags, from)
            + (rows_messages(o, counts, flags, from + 1, to) + row_messages(o, counts, flags, to)));
        assert(rows_messages(o, counts, flags, from, to + 1) =~= rows_messages(
            o,
            counts,
            flags,
            from,
            to,
        ) + row_messages(o, counts, flags, to));
    }
}

/// A block of rows emits one message per covered pixel.
proof fn lemma_rows_messages_len(o: Options, counts: Seq<u32>, flags: int, from: int, to: int)
    requires
        from <= to,
    ensures
        rows_messages(o, counts, flags, from, to).len() == (to - from) * o.width,
    decreases to - from,
{
    if from == to {
        assert((to - from) * o.width == 0) by (nonlinear_arith)
            requires
                to == from,
        ;
    } else {
        lemma_rows_messages_len(o, counts, flags, from + 1, to);
        assert(o.width + (to - from - 1) * o.width == (to - from) * o.width) by (nonlinear_arith);
    }
}

/// Within a block of rows the messages are contiguous: the `j`-th message
/// addresses pixel `from·width + j` and carries that pixel's colour.
proof fn lemma_rows_messages_index(
    o: Options,
    counts: Seq<u32>,
    flags: int,
    from: int,
    to: int,
    j: int,
)
    requires
        0 <= from <= to,
        0 <= j < (to - from) * o.width,
    ensures
        rows_messages(o, counts, flags, from, to)[j] == (
            ((from * o.width + j) as u32),
            raster_spec(o, counts, flags)[from * o.width + j],
        ),
    decreases to - from,
{
    lemma_rows_messages_len(o, counts, flags, from, to);
    if from == to {
        assert((to - from) * o.width == 0) by (nonlinear_arith)
            requires
                to == from,
        ;
    } else {
        lemma_rows_messages_len(o, counts, flags, from + 1, to);
        assert(o.width + (to - from - 1) * o.width == (to - from) * o.width) by (nonlinear_arith);
        if j < o.width {
        } else {
            lemma_rows_messages_index(o, counts, flags, from + 1, to, j - o.width);
            assert((from + 1) * o.width + (j - o.width) == from * o.width + j)
                by (nonlinear_arith);
        }
    }
}

/// Some message in the stream addresses pixel `i`.
pub open spec fn addresses(msgs: Seq<(u32, u32)>, i: int) -> bool {
    exists|k: int| 0 <= k < msgs.len() && (#[trigger] msgs[k]).0 == i
}

/// A complete message stream for a render: every message addresses a pixel
/// of the raster and carries that pixel's colour, and every pixel is
/// addressed by some message.
pub open spec fn complete_emission(
    o: Options,
    counts: Seq<u32>,
    flags: int,
    msgs: Seq<(u32, u32)>,
) -> bool {
    &&& forall|k: int|
        0 <= k < msgs.len() ==> ((#[trigger] msgs[k]).0 < o.width * o.height && msgs[k].1
            == raster_spec(o, counts, flags)[msgs[k].0 as int])
    &&& forall|i: int| 0 <= i < o.width * o.height ==> #[trigger] addresses(msgs, i)
}

/// Coverage: the emission for the whole image addresses every pixel exactly
/// once — it holds one message per pixel, its pixel indices are pairwise
/// distinct, every pixel index occurs, and each message carries its
/// pixel's value.
pub proof fn lemma_rows_cover(o: Options, counts: Seq<u32>, flags: int)
    requires
        o.width > 0,
        o.height > 0,
        o.width * o.height <= u32::MAX,
    ensures
        rows_messages(o, counts, flags, 0, o.height as int).len() == o.width * o.height,
        complete_emission(o, counts, flags, rows_messages(o, counts, flags, 0, o.height as int)),
        forall|j: int, k: int|
            0 <= j < k < rows_messages(o, counts, flags, 0, o.height as int).len()
                ==> rows_messages(o, counts, flags, 0, o.height as int)[j].0 != rows_messages(
                o,
                counts,
                flags,
                0,
                o.height as int,
            )[k].0,
{
    let msgs = rows_messages(o, counts, flags, 0, o.height as int);
    lemma_rows_messages_len(o, counts, flags, 0, o.height as int);
    assert(o.height * o.width == o.width * o.height) by (nonlinear_arith);
    assert forall|j: int| 0 <= j < msgs.len() implies msgs[j] == (
        (j as u32),
        raster_spec(o, counts, flags)[j],
    ) by {
        lemma_rows_messages_index(o, counts, flags, 0, o.height as int, j);
    }
    assert forall|i: int| 0 <= i < o.width * o.height implies addresses(msgs, i) by {
        assert(0 <= i < msgs.len() && msgs[i].0 == i);
    }
}

/// A CPU worker: claims rows from the shared ticket until the image
/// is exhausted, and appends one `(pixel index, colour)` message per pixel
/// of each claimed row, row by row. The escape counts of the whole image
/// arrive precomputed; the worker averages, encodes and indexes. On return
/// the ticket has passed the last row and the messages of every row from
/// the starting ticket to the bottom have been appended.
pub fn mandelbrot(
    options: &Options,
    counts: &Vec<u32>,
    sender: &mut Vec<(u32, u32)>,
    current_line: &mut u32,
)
    requires
        cpu_bounds(*options),
        options.colourise ==> options.thread_id is Some,
        counts@.len() == options.width * options.height * subsample_count(*options),
        *old(current_line) <= options.height,
    ensures
        final(sender)@ == old(sender)@ + rows_messages(
            *options,
            counts@,
            effective_flags_of(*options),
            *old(current_line) as int,
            options.height as int,
        ),
        *final(current_line) == options.height + 1,
{
    let ghost fl = effective_flags_of(*options);
    let ghost sender0 = sender@;
    let ghost start_row = *current_line as int;
    let flags = effective_flags(options);
    let n = counts.len();
    proof {
        assert(options.samples * options.samples >= 1 && options.samples * options.samples
            <= options.samples * options.samples * options.max_iter) by (nonlinear_arith)
            requires
                options.max_iter >= 1,
                options.samples >= 1,
        ;
    }
    let ss = (options.samples as usize) * (options.samples as usize);
    let mut iy = interlocked_increment(current_line);
    while iy < options.height
        invariant
            cpu_bounds(*options),
            flags == fl,
            flags <= 7,
            ss == subsample_count(*options),
            ss >= 1,
            n == counts@.len(),
            n == options.width * options.height * subsample_count(*options),
            start_row <= iy as int,
            iy <= options.height,
            *current_line == iy + 1,
            sender@ == sender0 + rows_messages(*options, counts@, fl, start_row, iy as int),
        decreases options.height - iy,
    {
        let ghost row = row_messages(*options, counts@, fl, iy as int);
        let mut ix: u32 = 0;
        while ix < options.width
            invariant
                cpu_bounds(*options),
                flags == fl,
                flags <= 7,
                ss == subsample_count(*options),
                ss >= 1,
                n == counts@.len(),
                n == options.width * options.height * subsample_count(*options),
                iy < options.height,
                ix <= options.width,
                row == row_messages(*options, counts@, fl, iy as int),
                sender@ == sender0 + rows_messages(*options, counts@, fl, start_row, iy as int)
                    + row.subrange(0, ix as int),
            decreases options.width - ix,
        {
            proof {
                assert(iy * options.width <= options.width * options.height - options.width && iy
                    * options.width + ix < options.width * options.height) by (nonlinear_arith)
                    requires
                        0 <= iy < options.height,
                        0 <= ix < options.width,
                ;
            }
            let idx = iy * options.width + ix;
            proof {
                assert((idx as int) * (ss as int) + ss <= options.width * options.height * (
                ss as int) && (idx as int) * (ss as int) >= 0) by (nonlinear_arith)
                    requires
                        0 <= idx as int,
                        (idx as int) + 1 <= options.width * options.height,
                        ss >= 1,
                ;
            }
            let cstart = (idx as usize) * ss;
            let val = pixel_value(options, counts, cstart, flags);
            sender.push((idx, val));
            proof {
                crate::bits::lemma_mask_is_mod(0, options.max_colours);
                lemma_colour_word_bounds(
                    averaged_iter(
                        counts@.subrange(
                            idx * subsample_count(*options),
                            (idx + 1) * subsample_count(*options),
                        ),
                        options.max_iter,
                    ),
                    options.max_colours as int,
                    options.max_iter as int,
                    fl,
                );
                assert((idx + 1) * subsample_count(*options) == idx * subsample_count(*options)
                    + subsample_count(*options)) by (nonlinear_arith);
                assert(val == raster_spec(*options, counts@, fl)[idx as int]);
                assert(row[ix as int] == (idx, val));
                assert(row.subrange(0, ix + 1) =~= row.subrange(0, ix as int).push(
                    row[ix as int],
                ));
                assert(sender@ =~= sender0 + rows_messages(
                    *options,
                    counts@,
                    fl,
                    start_row,
                    iy as int,
                ) + row.subrange(0, ix + 1));
            }
            ix = ix + 1;
        }
        proof {
            assert(row.subrange(0, options.width as int) =~= row);
            lemma_rows_messages_snoc(*options, counts@, fl, start_row, iy as int);
            assert(sender@ =~= sender0 + rows_messages(
                *options,
                counts@,
                fl,
                start_row,
                iy as int + 1,
            ));
        }
        iy = interlocked_increment(current_line);
    }
}

/// The raster after the collector drains a message stream in arrival
/// order: each message overwrites the word at its pixel index.
pub open spec fn apply_messages(out: Seq<u32>, msgs: Seq<(u32, u32)>) -> Seq<u32>
    decreases msgs.len(),
{
    if msgs.len() == 0 {
        out
    } else {
        apply_messages(
            out.update(msgs[0].0 as int, msgs[0].1),
            msgs.subrange(1, msgs.len() as int),
        )
    }
}

/// Draining one more message updates the word it addresses.
proof fn lemma_apply_messages_snoc(out: Seq<u32>, msgs: Seq<(u32, u32)>, m: (u32, u32))
    ensures
        apply_messages(out, msgs.push(m)) == apply_messages(out, msgs).update(m.0 as int, m.1),
    decreases msgs.len(),
{
    if msgs.len() == 0 {
        assert(msgs.push(m)[0] == m);
        assert(msgs.push(m).subrange(1, 1) =~= Seq::<(u32, u32)>::empty());
        assert(apply_messages(out.update(m.0 as int, m.1), Seq::<(u32, u32)>::empty())
            == out.update(m.0 as int, m.1));
    } else {
        assert(msgs.push(m)[0] == msgs[0]);
        assert(msgs.push(m).subrange(1, msgs.len() as int + 1) =~= msgs.subrange(
            1,
            msgs.len() as int,
        ).push(m));
        lemma_apply_messages_snoc(
            out.update(msgs[0].0 as int, msgs[0].1),
            msgs.subrange(1, msgs.len() as int),
            m,
        );
    }
}

/// Draining in-range messages keeps the raster's length.
proof fn lemma_apply_messages_len(out: Seq<u32>, msgs: Seq<(u32, u32)>)
    requires
        forall|k: int| 0 <= k < msgs.len() ==> (#[trigger] msgs[k]).0 < out.len(),
    ensures
        apply_messages(out, msgs).len() == out.len(),
    decreases msgs.len(),
{
    if msgs.len() == 0 {
    } else {
        let out2 = out.update(msgs[0].0 as int, msgs[0].1);
        let rest = msgs.subrange(1, msgs.len() as int);
        assert(forall|k: int| 0 <= k < rest.len() ==> (#[trigger] rest[k]).0 < out2.len());
        lemma_apply_messages_len(out2, rest);
    }
}

/// What each word holds after a drain whose every message carries the
/// target value of the pixel it addresses: the target value where some
/// message addressed the pixel, the old word everywhere else. The arrival
/// order cannot matter, because every message for a pixel carries the same
/// value.
proof fn lemma_apply_messages_pointwise(
    out: Seq<u32>,
    target: Seq<u32>,
    msgs: Seq<(u32, u32)>,
    i: int,
)
    requires
        out.len() == target.len(),
        forall|k: int|
            0 <= k < msgs.len() ==> ((#[trigger] msgs[k]).0 < out.len() && msgs[k].1 == target[
                msgs[k].0 as int
            ]),
        0 <= i < out.len(),
    ensures
        apply_messages(out, msgs)[i] == if addresses(msgs, i) {
            target[i]
        } else {
            out[i]
        },
    decreases msgs.len(),
{
    if msgs.len() == 0 {
        assert(!addresses(msgs, i));
    } else {
        let m = msgs[0];
        let out2 = out.update(m.0 as int, m.1);
        let rest = msgs.subrange(1, msgs.len() as int);
        assert(forall|k: int|
            0 <= k < rest.len() ==> ((#[trigger] rest[k]).0 < out2.len() && rest[k].1 == target[
                rest[k].0 as int
            ]));
        lemma_apply_messages_pointwise(out2, target, rest, i);
        if addresses(rest, i) {
            let k = choose|k: int| 0 <= k < rest.len() && (#[trigger] rest[k]).0 == i;
            assert(msgs[k + 1].0 == i);
            assert(addresses(msgs, i));
        } else if m.0 == i {
            assert(out2[i] == m.1);
            assert(addresses(msgs, i)) by {
                assert(msgs[0].0 == i);
            }
        } else {
            assert(out2[i] == out[i]);
            if addresses(msgs, i) {
                let k = choose|k: int| 0 <= k < msgs.len() && (#[trigger] msgs[k]).0 == i;
                assert(k > 0);
                assert(rest[k - 1].0 == i);
                assert(addresses(rest, i));
            }
        }
    }
}

/// A complete drain puts the finished raster into the buffer, whatever the
/// buffer held before and in whatever order the messages arrived.
pub proof fn lemma_complete_drain(
    out: Seq<u32>,
    o: Options,
    counts: Seq<u32>,
    flags: int,
    msgs: Seq<(u32, u32)>,
)
    requires
        out.len() == o.width * o.height,
        complete_emission(o, counts, flags, msgs),
    ensures
        apply_messages(out, msgs) == raster_spec(o, counts, flags),
{
    let target = raster_spec(o, counts, flags);
    lemma_apply_messages_len(out, msgs);
    assert forall|i: int| 0 <= i < out.len() implies apply_messages(out, msgs)[i] == target[i] by {
        lemma_apply_messages_pointwise(out, target, msgs, i);
    }
    assert(apply_messages(out, msgs) =~= target);
}

/// Determinism of the CPU path: two renders with the same parameters and
/// the same escape counts produce byte-identical rasters, whatever the two
/// buffers held before, in whatever order the two message streams arrived,
/// and however the rows were shared among workers — any two complete
/// message streams drain to the same raster.
pub proof fn lemma_cpu_deterministic(
    out1: Seq<u32>,
    out2: Seq<u32>,
    o: Options,
    counts: Seq<u32>,
    flags: int,
    msgs1: Seq<(u32, u32)>,
    msgs2: Seq<(u32, u32)>,
)
    requires
        out1.len() == o.width * o.height,
        out2.len() == o.width * o.height,
        complete_emission(o, counts, flags, msgs1),
        complete_emission(o, counts, flags, msgs2),
    ensures
        apply_messages(out1, msgs1) == apply_messages(out2, msgs2),
{
    lemma_complete_drain(out1, o, counts, flags, msgs1);
    lemma_complete_drain(out2, o, counts, flags, msgs2);
}

/// The collector: drains the message stream into the raster,
/// writing each message at its pixel index, in arrival order.
pub fn apply_pixels(out: &mut Vec<u32>, msgs: &Vec<(u32, u32)>)
    requires
        forall|k: int|
            0 <= k < msgs@.len() ==> (#[trigger] msgs@[k]).0 < old(out)@.len(),
    ensures
        final(out)@ == apply_messages(old(out)@, msgs@),
{
    let ghost out0 = out@;
    let mut k: usize = 0;
    while k < msgs.len()
        invariant
            out0.len() == out@.len(),
            k <= msgs@.len(),
            forall|j: int| 0 <= j < msgs@.len() ==> (#[trigger] msgs@[j]).0 < out0.len(),
            out@ == apply_messages(out0, msgs@.subrange(0, k as int)),
        decreases msgs@.len() - k,
    {
        let (i, v) = msgs[k];
        out[i as usize] = v;
        proof {
            assert(msgs@.subrange(0, k + 1) =~= msgs@.subrange(0, k as int).push(
                msgs@[k as int],
            ));
            lemma_apply_messages_snoc(out0, msgs@.subrange(0, k as int), msgs@[k as int]);
            lemma_apply_messages_len(out0, msgs@.subrange(0, k + 1));
        }
        k = k + 1;
    }
    proof {
        assert(msgs@.subrange(0, msgs@.len() as int) =~= msgs@);
    }
}

/// Renders the whole image on the CPU path from its escape counts:
/// one worker claims every row through the shared ticket and emits one
/// message per pixel; the collector drains them into the raster, which is
/// fully overwritten with the pixel values above.
pub fn render_cpu(options: &Options, counts: &Vec<u32>, out: &mut Vec<u32>)
    requires
        cpu_bounds(*options),
        options.colourise ==> options.thread_id is Some,
        counts@.len() == options.width * options.height * subsample_count(*options),
        old(out)@.len() == options.width * options.height,
    ensures
        final(out)@ == raster_spec(*options, counts@, effective_flags_of(*options)),
{
    let mut current_line: u32 = 0;
    let mut messages: Vec<(u32, u32)> = Vec::new();
    mandelbrot(options, counts, &mut messages, &mut current_line);
    proof {
        let fl = effective_flags_of(*options);
        lemma_rows_cover(*options, counts@, fl);
        assert(messages@ =~= rows_messages(
            *options,
            counts@,
            fl,
            0,
            options.height as int,
        ));
        lemma_complete_drain(out@, *options, counts@, fl, messages@);
    }
    apply_pixels(out, &messages);
}

} // verus!
