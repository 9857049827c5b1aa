//! The colour encoder and the channel split the image adapter consumes.

use mandelbrot::colour::{effective_flags, iterations2colour, split_channels};
use mandelbrot::params::Options;

fn with_depth(max_colours: u32) -> Options {
    Options::new(
        max_colours,
        256,
        16,
        16,
        (-0.75f64).to_bits(),
        0.0f64.to_bits(),
        2.5f64.to_bits(),
        1,
        7,
        false,
        1,
        false,
        false,
        false,
        false,
    )
}

#[test]
fn encoder_places_intensity_in_selected_lanes() {
    let o = with_depth(256);
    assert_eq!(iterations2colour(&o, 128, 256, 7), 0x808080);
    assert_eq!(iterations2colour(&o, 128, 256, 1), 0x000080);
    assert_eq!(iterations2colour(&o, 128, 256, 2), 0x008000);
    assert_eq!(iterations2colour(&o, 128, 256, 4), 0x800000);
    assert_eq!(iterations2colour(&o, 128, 256, 3), 0x008080);
    assert_eq!(iterations2colour(&o, 128, 256, 0), 0x000000);
}

#[test]
fn encoder_full_budget_wraps_to_black() {
    // An average equal to the cap scales to the colour depth and the mask
    // wraps it to zero: the deepest interior renders black.
    let o = with_depth(256);
    assert_eq!(iterations2colour(&o, 256, 256, 7), 0x000000);
    assert_eq!(iterations2colour(&o, 255, 256, 7), 0xFFFFFF);
    assert_eq!(iterations2colour(&o, 0, 256, 7), 0x000000);
}

#[test]
fn encoder_scales_to_colour_depth() {
    let o = with_depth(16);
    // 100 * 16 / 200 = 8, masked by 15.
    assert_eq!(iterations2colour(&o, 100, 200, 7), 0x080808);
    let o = with_depth(2);
    // 3 * 2 / 4 = 1, masked by 1.
    assert_eq!(iterations2colour(&o, 3, 4, 7), 0x010101);
    let o = with_depth(1);
    assert_eq!(iterations2colour(&o, 3, 4, 7), 0x000000);
}

#[test]
fn split_channels_reads_the_three_byte_lanes() {
    assert_eq!(split_channels(0x123456), (0x56, 0x34, 0x12));
    assert_eq!(split_channels(0x000000), (0, 0, 0));
    assert_eq!(split_channels(0xFFFFFF), (0xFF, 0xFF, 0xFF));
    assert_eq!(split_channels(0x0000FF), (0xFF, 0, 0));
}

#[test]
fn effective_flags_honours_per_worker_hue() {
    let mut o = with_depth(256);
    o.colour = 5;
    assert_eq!(effective_flags(&o), 5);
    o.colourise = true;
    o.thread_id = Some(0);
    assert_eq!(effective_flags(&o), 1);
    o.thread_id = Some(1);
    assert_eq!(effective_flags(&o), 2);
    o.thread_id = Some(6);
    assert_eq!(effective_flags(&o), 7);
    o.thread_id = Some(7);
    assert_eq!(effective_flags(&o), 1);
    o.thread_id = Some(9);
    assert_eq!(effective_flags(&o), 3);
}
