//! Parameter construction, backend selection, and validation.

use mandelbrot::params::{Backend, Options, RenderError};

fn base() -> Options {
    Options::new(
        256,
        256,
        1024,
        1024,
        (-0.75f64).to_bits(),
        0.0f64.to_bits(),
        2.5f64.to_bits(),
        1,
        7,
        false,
        1,
        false,
        false,
        false,
        false,
    )
}

#[test]
fn new_fills_every_field() {
    let o = base();
    assert_eq!(o.max_colours, 256);
    assert_eq!(o.max_iter, 256);
    assert_eq!(o.width, 1024);
    assert_eq!(o.height, 1024);
    assert_eq!(f64::from_bits(o.centrex), -0.75);
    assert_eq!(f64::from_bits(o.centrey), 0.0);
    assert_eq!(f64::from_bits(o.scaley), 2.5);
    assert_eq!(o.samples, 1);
    assert_eq!(o.colour, 7);
    assert!(!o.colourise);
    assert_eq!(o.threads, 1);
    assert_eq!(o.thread_id, None);
    assert!(!o.progress);
    assert!(!o.ocl);
    assert!(!o.vulkan);
    assert!(!o.service);
}

#[test]
fn as_vulkan_opts_packs_the_shader_record() {
    let o = base();
    let v = o.as_vulkan_opts();
    assert_eq!(v.width, o.width);
    assert_eq!(v.height, o.height);
    assert_eq!(v.samples, o.samples);
    assert_eq!(v.iterations, o.max_iter);
    assert_eq!(v.scaley, o.scaley);
    assert_eq!(v.centrex, o.centrex);
    assert_eq!(v.centrey, o.centrey);
}

#[test]
fn backend_selection_prefers_opencl() {
    let mut o = base();
    assert_eq!(o.backend(), Backend::Cpu);
    o.vulkan = true;
    assert_eq!(o.backend(), Backend::Vulkan);
    o.ocl = true;
    assert_eq!(o.backend(), Backend::OpenCl);
}

#[test]
fn validate_accepts_sound_options() {
    assert_eq!(base().validate(), Ok(()));
}

#[test]
fn validate_rejects_zero_dimensions() {
    let mut o = base();
    o.width = 0;
    assert_eq!(o.validate(), Err(RenderError::InvalidDimensions));
    let mut o = base();
    o.height = 0;
    assert_eq!(o.validate(), Err(RenderError::InvalidDimensions));
}

#[test]
fn validate_rejects_zero_iterations() {
    let mut o = base();
    o.max_iter = 0;
    assert_eq!(o.validate(), Err(RenderError::InvalidIterations));
}

#[test]
fn validate_rejects_zero_samples() {
    let mut o = base();
    o.samples = 0;
    assert_eq!(o.validate(), Err(RenderError::InvalidSamples));
}

#[test]
fn validate_rejects_unmaskable_colour_depth() {
    let mut o = base();
    o.max_colours = 100;
    assert_eq!(o.validate(), Err(RenderError::MaxColoursNotPowerOfTwo));
    o.max_colours = 0;
    assert_eq!(o.validate(), Err(RenderError::MaxColoursNotPowerOfTwo));
    o.max_colours = 1;
    assert_eq!(o.validate(), Ok(()));
    o.max_colours = 64;
    assert_eq!(o.validate(), Ok(()));
}

#[test]
fn validate_rejects_wide_channel_mask() {
    let mut o = base();
    o.colour = 8;
    assert_eq!(o.validate(), Err(RenderError::ColourFlagsOutOfRange));
}

#[test]
fn validate_rejects_bad_scale() {
    let mut o = base();
    o.scaley = 0.0f64.to_bits();
    assert_eq!(o.validate(), Err(RenderError::InvalidScale));
    o.scaley = (-2.5f64).to_bits();
    assert_eq!(o.validate(), Err(RenderError::InvalidScale));
    o.scaley = f64::NAN.to_bits();
    assert_eq!(o.validate(), Err(RenderError::InvalidScale));
    o.scaley = f64::INFINITY.to_bits();
    assert_eq!(o.validate(), Err(RenderError::InvalidScale));
    o.scaley = f64::MIN_POSITIVE.to_bits();
    assert_eq!(o.validate(), Ok(()));
}

#[test]
fn validate_rejects_non_finite_centre() {
    let mut o = base();
    o.centrex = f64::NAN.to_bits();
    assert_eq!(o.validate(), Err(RenderError::InvalidCentre));
    let mut o = base();
    o.centrey = f64::NEG_INFINITY.to_bits();
    assert_eq!(o.validate(), Err(RenderError::InvalidCentre));
    let mut o = base();
    o.centrex = (-0.75f64).to_bits();
    o.centrey = (-1.0e300f64).to_bits();
    assert_eq!(o.validate(), Ok(()));
}

#[test]
fn validate_rejects_misaligned_gpu_dimensions() {
    let mut o = base();
    o.ocl = true;
    o.width = 100;
    assert_eq!(o.validate(), Err(RenderError::GpuDimensionsNotMultipleOfEight));
    o.width = 104;
    assert_eq!(o.validate(), Ok(()));
    let mut o = base();
    o.vulkan = true;
    o.height = 9;
    assert_eq!(o.validate(), Err(RenderError::GpuDimensionsNotMultipleOfEight));
    // The CPU backend has no alignment constraint.
    let mut o = base();
    o.width = 100;
    o.height = 9;
    assert_eq!(o.validate(), Ok(()));
}

#[test]
fn validate_rejects_zero_workers_on_cpu_only() {
    let mut o = base();
    o.threads = 0;
    assert_eq!(o.validate(), Err(RenderError::InvalidThreads));
    o.ocl = true;
    assert_eq!(o.validate(), Ok(()));
}
