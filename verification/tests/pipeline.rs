//! End-to-end renders through the CPU pipeline: the escape-time loop runs
//! here in the test, exactly as the backends run it, and hands the library
//! its escape counts.

use mandelbrot::params::Options;
use mandelbrot::raster::{apply_pixels, mandelbrot, pixel_value, render_cpu};

fn opts(
    width: u32,
    height: u32,
    cx: f64,
    cy: f64,
    scaley: f64,
    max_iter: u32,
    samples: u32,
    colour: u32,
    threads: u32,
) -> Options {
    Options::new(
        256,
        max_iter,
        width,
        height,
        cx.to_bits(),
        cy.to_bits(),
        scaley.to_bits(),
        samples,
        colour,
        false,
        threads,
        false,
        false,
        false,
        false,
    )
}

/// The escape-time kernel, per subsample, as every backend computes it.
fn escape_counts(o: &Options) -> Vec<u32> {
    let centrex = f64::from_bits(o.centrex);
    let centrey = f64::from_bits(o.centrey);
    let scaley = f64::from_bits(o.scaley);
    let scalex: f64 = scaley * o.width as f64 / o.height as f64;
    let dx: f64 = scalex / o.width as f64 / o.samples as f64;
    let dy: f64 = scaley / o.height as f64 / o.samples as f64;
    let startx: f64 = centrex - scalex * 0.5;
    let starty: f64 = centrey - scaley * 0.5;
    let mut counts: Vec<u32> = Vec::new();
    for iy in 0..o.height {
        for ix in 0..o.width {
            for itery in 0..o.samples {
                for iterx in 0..o.samples {
                    let mut iter: u32 = 0;
                    let x0: f64 = startx + (ix as f64 * o.samples as f64 + iterx as f64) * dx;
                    let y0: f64 = starty + (iy as f64 * o.samples as f64 + itery as f64) * dy;
                    let mut x: f64 = x0;
                    let mut y: f64 = y0;
                    while x * x + y * y < 4.0 && iter <= o.max_iter {
                        let xtemp: f64 = x * x - y * y + x0;
                        y = 2.0 * x * y + y0;
                        x = xtemp;
                        iter += 1;
                    }
                    counts.push(iter);
                }
            }
        }
    }
    counts
}

fn render(o: &Options) -> Vec<u32> {
    let counts = escape_counts(o);
    let mut out: Vec<u32> = vec![0u32; (o.width * o.height) as usize];
    render_cpu(o, &counts, &mut out);
    out
}

#[test]
fn cpu_render_16x16_centre() {
    let o = opts(16, 16, -0.75, 0.0, 2.5, 256, 1, 7, 1);
    let out = render(&o);
    assert_eq!(out.len(), 256);
    // Three of the four centre pixels sit inside the set and stay black;
    // the fourth samples the pinch point just below the real axis, which
    // escapes after a handful of iterations.
    assert_eq!(out[7 * 16 + 7], 0x000000);
    assert_eq!(out[7 * 16 + 8], 0x141414);
    assert_eq!(out[8 * 16 + 7], 0x000000);
    assert_eq!(out[8 * 16 + 8], 0x000000);
    // A corner pixel is outside the bailout circle from the start and is
    // black as well; a mid-ring pixel carries a small grey value.
    assert_eq!(out[0], 0x000000);
    assert_eq!(out[4 * 16 + 4], 0x020202);
}

#[test]
fn cpu_render_deterministic() {
    let o = opts(16, 16, -0.75, 0.0, 2.5, 256, 1, 7, 1);
    let first = render(&o);
    let second = render(&o);
    assert_eq!(first, second);
}

#[test]
fn cpu_render_message_order_immaterial() {
    // The collector writes by pixel index, so any arrival order of the
    // worker messages drains to the same raster.
    let o = opts(16, 16, -0.75, 0.0, 2.5, 256, 1, 7, 8);
    let counts = escape_counts(&o);
    let mut messages: Vec<(u32, u32)> = Vec::new();
    let mut current_line: u32 = 0;
    mandelbrot(&o, &counts, &mut messages, &mut current_line);
    assert_eq!(current_line, 17);
    assert_eq!(messages.len(), 256);

    let mut in_order: Vec<u32> = vec![0u32; 256];
    apply_pixels(&mut in_order, &messages);

    let mut reversed = messages.clone();
    reversed.reverse();
    let mut out_reversed: Vec<u32> = vec![0xFFFF_FFFFu32; 256];
    apply_pixels(&mut out_reversed, &reversed);

    let mut strided: Vec<(u32, u32)> = Vec::new();
    for phase in 0..7 {
        for (k, m) in messages.iter().enumerate() {
            if k % 7 == phase {
                strided.push(*m);
            }
        }
    }
    let mut out_strided: Vec<u32> = vec![0u32; 256];
    apply_pixels(&mut out_strided, &strided);

    assert_eq!(in_order, out_reversed);
    assert_eq!(in_order, out_strided);
    assert_eq!(in_order, render(&o));
}

#[test]
fn cpu_render_covers_every_pixel() {
    let o = opts(16, 16, -0.75, 0.0, 2.5, 256, 1, 7, 1);
    let counts = escape_counts(&o);
    let mut messages: Vec<(u32, u32)> = Vec::new();
    let mut current_line: u32 = 0;
    mandelbrot(&o, &counts, &mut messages, &mut current_line);
    let mut seen: Vec<u32> = vec![0u32; 256];
    for m in &messages {
        seen[m.0 as usize] += 1;
    }
    for s in &seen {
        assert_eq!(*s, 1);
    }
}

#[test]
fn red_only_render_keeps_other_channels_dark() {
    let o = opts(64, 64, -0.75, 0.0, 2.5, 256, 2, 1, 1);
    let out = render(&o);
    let mut nonzero: u32 = 0;
    for w in &out {
        if *w != 0 {
            nonzero += 1;
            assert_eq!((*w >> 8) & 0xFF, 0);
            assert_eq!((*w >> 16) & 0xFF, 0);
            assert!(*w & 0xFF > 0);
        }
    }
    assert_eq!(nonzero, 2913);
}

#[test]
fn deep_cardioid_zoom_mostly_black() {
    let o = opts(128, 128, 0.25, 0.0, 0.01, 512, 1, 7, 1);
    let out = render(&o);
    let mut black: usize = 0;
    for w in &out {
        if *w == 0 {
            black += 1;
        }
    }
    // At least nine pixels in ten reach the iteration cap in this viewport.
    assert!(black * 10 >= out.len() * 9);
    assert_eq!(black, 15961);
}

#[test]
fn symmetric_counts_give_symmetric_raster() {
    // With a single sample per pixel and escape counts symmetric about the
    // horizontal midline, the raster is symmetric about it too.
    let o = opts(8, 8, -0.75, 0.0, 2.5, 100, 1, 7, 1);
    let mut counts: Vec<u32> = Vec::new();
    for iy in 0..8u32 {
        let folded = if iy < 4 { iy } else { 7 - iy };
        for ix in 0..8u32 {
            counts.push((folded * 13 + ix * 31) % 102);
        }
    }
    let mut out: Vec<u32> = vec![0u32; 64];
    render_cpu(&o, &counts, &mut out);
    for iy in 0..8usize {
        for ix in 0..8usize {
            assert_eq!(out[iy * 8 + ix], out[(7 - iy) * 8 + ix]);
        }
    }
}

#[test]
fn exhausted_pixel_is_black_at_any_grid_side() {
    // A pixel whose every subsample exhausts the budget is black, however
    // fine the supersampling grid.
    let single = opts(8, 8, -0.75, 0.0, 2.5, 100, 1, 7, 1);
    let triple = opts(8, 8, -0.75, 0.0, 2.5, 100, 3, 7, 1);
    let counts_single: Vec<u32> = vec![101u32; 1];
    let counts_triple: Vec<u32> = vec![101u32; 9];
    assert_eq!(pixel_value(&single, &counts_single, 0, 7), 0);
    assert_eq!(pixel_value(&triple, &counts_triple, 0, 7), 0);
}

#[test]
fn uniformly_escaping_pixel_keeps_its_colour() {
    // A pixel fully outside from the first iteration escapes at count one
    // in every subsample; its colour does not depend on the grid side.
    let single = opts(8, 8, -0.75, 0.0, 2.5, 100, 1, 7, 1);
    let triple = opts(8, 8, -0.75, 0.0, 2.5, 100, 3, 7, 1);
    let counts_single: Vec<u32> = vec![1u32; 1];
    let counts_triple: Vec<u32> = vec![1u32; 9];
    let lone = pixel_value(&single, &counts_single, 0, 7);
    assert_eq!(lone, pixel_value(&triple, &counts_triple, 0, 7));
    assert_eq!(lone, 0x020202);
}

#[test]
fn averaging_discards_exhausted_subsamples() {
    // Counts 2, 6 and 4 stay within the budget of 100 and sum to 12; the
    // exhausted subsample contributes nothing. The average over the four
    // subsamples is 3, which scales to 3 * 256 / 100 = 7 in every lane.
    let o = opts(8, 8, -0.75, 0.0, 2.5, 100, 2, 7, 1);
    let counts: Vec<u32> = vec![2, 6, 300, 4];
    assert_eq!(pixel_value(&o, &counts, 0, 7), 0x070707);
}

#[test]
fn colourised_worker_uses_its_own_hue() {
    let mut o = opts(8, 8, -0.75, 0.0, 2.5, 64, 1, 7, 1);
    o.colourise = true;
    o.thread_id = Some(1);
    let counts = escape_counts(&o);
    let mut out: Vec<u32> = vec![0u32; 64];
    render_cpu(&o, &counts, &mut out);
    // Worker 1 renders with mask (1 % 7) + 1 = 2: green only.
    for w in &out {
        assert_eq!(*w & 0xFF, 0);
        assert_eq!((*w >> 16) & 0xFF, 0);
    }
    let mut any_green = false;
    for w in &out {
        if (*w >> 8) & 0xFF > 0 {
            any_green = true;
        }
    }
    assert!(any_green);
}
