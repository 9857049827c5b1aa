//! Rendering parameters, their invariants, and their validation.
//!
//! The viewport centre and vertical scale are real numbers; the library
//! stores them as IEEE 754 binary64 bit patterns (`u64`), which is all the
//! integer pipeline ever reads of them. The adapters turn machine doubles
//! into bit patterns at the boundary.

use vstd::prelude::*;
use vstd::arithmetic::power2::is_pow2;
use crate::bits::power_of_two_check;

verus! {

/// The execution backend a render is dispatched to.
#[derive(Clone, Copy, Debug, PartialEq, Eq, Structural)]
pub enum Backend {
    /// Parallel CPU work-queue.
    Cpu,
    /// OpenCL-style data-parallel dispatch.
    OpenCl,
    /// Vulkan-style compute dispatch.
    Vulkan,
}

/// Why a render was refused before any work was done, or why a backend
/// could not run it.
#[derive(Clone, Debug, PartialEq, Eq)]
pub enum RenderError {
    /// A raster dimension is zero.
    InvalidDimensions,
    /// The iteration cap is zero.
    InvalidIterations,
    /// The supersampling grid side is zero.
    InvalidSamples,
    /// `max_colours` is not a power of two, so the intensity mask is
    /// ill-defined.
    MaxColoursNotPowerOfTwo,
    /// The channel mask does not fit in three bits.
    ColourFlagsOutOfRange,
    /// The vertical scale is not a positive finite real.
    InvalidScale,
    /// A centre coordinate is not finite.
    InvalidCentre,
    /// A GPU dispatch was asked for dimensions not divisible by the
    /// workgroup side.
    GpuDimensionsNotMultipleOfEight,
    /// The CPU backend was asked to run with no workers.
    InvalidThreads,
    /// A device layer refused the render; the cause is the device's own
    /// wording.
    BackendUnavailable(String),
}

/// The immutable specification of one render.
#[derive(Clone, Copy, Debug)]
pub struct Options {
    /// Number of intensity levels; must be a power of two.
    pub max_colours: u32,
    /// Iteration cap of the escape-time loop.
    pub max_iter: u32,
    /// Raster width in pixels.
    pub width: u32,
    /// Raster height in pixels.
    pub height: u32,
    /// Viewport centre, real part (binary64 bit pattern).
    pub centrex: u64,
    /// Viewport centre, imaginary part (binary64 bit pattern).
    pub centrey: u64,
    /// Vertical extent of the viewport (binary64 bit pattern).
    pub scaley: u64,
    /// Supersampling grid side; the pixel average runs over `samples²`
    /// subsamples.
    pub samples: u32,
    /// 3-bit channel mask: bit 0 red, bit 1 green, bit 2 blue.
    pub colour: u32,
    /// When set, a CPU worker colours by its own id instead of `colour`.
    pub colourise: bool,
    /// CPU worker count.
    pub threads: u32,
    /// Id of the worker this copy of the options belongs to, once assigned.
    pub thread_id: Option<u32>,
    /// Show the progress widget (adapter concern).
    pub progress: bool,
    /// Select the OpenCL-style backend.
    pub ocl: bool,
    /// Select the Vulkan-style backend.
    pub vulkan: bool,
    /// Run as a service (adapter concern).
    pub service: bool,
}

/// The packed parameter record the Vulkan-style backend uploads to the
/// device, field for field as the shader declares it.
#[derive(Clone, Copy, Debug, PartialEq, Eq, Structural)]
pub struct VulkanOpts {
    /// Raster width in pixels.
    pub width: u32,
    /// Raster height in pixels.
    pub height: u32,
    /// Supersampling grid side.
    pub samples: u32,
    /// Iteration cap.
    pub iterations: u32,
    /// Vertical extent of the viewport (binary64 bit pattern).
    pub scaley: u64,
    /// Viewport centre, real part (binary64 bit pattern).
    pub centrex: u64,
    /// Viewport centre, imaginary part (binary64 bit pattern).
    pub centrey: u64,
}

/// A binary64 bit pattern denotes a finite real exactly when its exponent
/// field is not all ones.
pub open spec fn finite_bits(b: u64) -> bool {
    (b >> 52) & 0x7FF != 0x7FF
}

/// A binary64 bit pattern denotes a real strictly greater than zero exactly
/// when it is finite, its sign bit is clear, and it is not one of the two
/// zero encodings.
pub open spec fn positive_bits(b: u64) -> bool {
    finite_bits(b) && (b >> 63) == 0 && b != 0
}

/// Decides `finite_bits`.
pub fn is_finite_bits(b: u64) -> (r: bool)
    ensures
        r == finite_bits(b),
{
    (b >> 52) & 0x7FF != 0x7FF
}

/// Decides `positive_bits`.
pub fn is_positive_bits(b: u64) -> (r: bool)
    ensures
        r == positive_bits(b),
{
    is_finite_bits(b) && (b >> 63) == 0 && b != 0
}

/// The backend a set of options selects: the OpenCL flag wins over the
/// Vulkan flag, and the CPU work-queue is the default.
pub open spec fn backend_of(o: Options) -> Backend {
    if o.ocl {
        Backend::OpenCl
    } else if o.vulkan {
        Backend::Vulkan
    } else {
        Backend::Cpu
    }
}

/// The conjunction of every parameter constraint: dimensions, caps and the
/// grid side positive, a power-of-two colour depth, a 3-bit channel mask, a
/// positive finite scale, finite centre coordinates, workgroup-aligned
/// dimensions for the GPU backends, and at least one worker for the CPU
/// backend.
pub open spec fn valid_options(o: Options) -> bool {
    &&& o.width > 0
    &&& o.height > 0
    &&& o.max_iter > 0
    &&& o.samples > 0
    &&& is_pow2(o.max_colours as int)
    &&& o.colour <= 7
    &&& positive_bits(o.scaley)
    &&& finite_bits(o.centrex)
    &&& finite_bits(o.centrey)
    &&& (backend_of(o) != Backend::Cpu ==> o.width % 8 == 0 && o.height % 8 == 0)
    &&& (backend_of(o) == Backend::Cpu ==> o.threads > 0)
}

impl Options {
    /// Builds an options record from its parts; no worker id is assigned
    /// yet.
    pub fn new(
        max_colours: u32,
        max_iter: u32,
        width: u32,
        height: u32,
        centrex: u64,
        centrey: u64,
        scaley: u64,
        samples: u32,
        colour: u32,
        colourise: bool,
        threads: u32,
        progress: bool,
        ocl: bool,
        vulkan: bool,
        service: bool,
    ) -> (o: Options)
        ensures
            o == (Options {
                max_colours,
                max_iter,
                width,
                height,
                centrex,
                centrey,
                scaley,
                samples,
                colour,
                colourise,
                threads,
                thread_id: None,
                progress,
                ocl,
                vulkan,
                service,
            }),
    {
        Options {
            max_colours,
            max_iter,
            width,
            height,
            centrex,
            centrey,
            scaley,
            samples,
            colour,
            colourise,
            threads,
            thread_id: None,
            progress,
            ocl,
            vulkan,
            service,
        }
    }

    /// Packs the fields the Vulkan-style shader reads, in the shader's
    /// declaration order.
    pub fn as_vulkan_opts(&self) -> (v: VulkanOpts)
        ensures
            v == (VulkanOpts {
                width: self.width,
                height: self.height,
                samples: self.samples,
                iterations: self.max_iter,
                scaley: self.scaley,
                centrex: self.centrex,
                centrey: self.centrey,
            }),
    {
        VulkanOpts {
            width: self.width,
            height: self.height,
            samples: self.samples,
            iterations: self.max_iter,
            scaley: self.scaley,
            centrex: self.centrex,
            centrey: self.centrey,
        }
    }

    /// The backend these options select.
    pub fn backend(&self) -> (b: Backend)
        ensures
            b == backend_of(*self),
    {
        if self.ocl {
            Backend::OpenCl
        } else if self.vulkan {
            Backend::Vulkan
        } else {
            Backend::Cpu
        }
    }

    /// Checks every parameter constraint before any work is done. Returns
    /// the first violation in the order of the clauses of `valid_options`,
    /// and succeeds exactly on valid options.
    pub fn validate(&self) -> (r: Result<(), RenderError>)
        ensures
            r is Ok <==> valid_options(*self),
            (r == Result::<(), RenderError>::Err(RenderError::InvalidDimensions)) <==> (self.width
                == 0 || self.height == 0),
            (r == Result::<(), RenderError>::Err(RenderError::InvalidIterations)) <==> (self.width
                > 0 && self.height > 0 && self.max_iter == 0),
            (r == Result::<(), RenderError>::Err(RenderError::InvalidSamples)) <==> (self.width > 0
                && self.height > 0 && self.max_iter > 0 && self.samples == 0),
            (r == Result::<(), RenderError>::Err(RenderError::MaxColoursNotPowerOfTwo)) <==> (
            self.width > 0 && self.height > 0 && self.max_iter > 0 && self.samples > 0 && !is_pow2(
                self.max_colours as int,
            )),
            (r == Result::<(), RenderError>::Err(RenderError::ColourFlagsOutOfRange)) <==> (
            self.width > 0 && self.height > 0 && self.max_iter > 0 && self.samples > 0 && is_pow2(
                self.max_colours as int,
            ) && self.colour > 7),
            (r == Result::<(), RenderError>::Err(RenderError::InvalidScale)) <==> (self.width > 0
                && self.height > 0 && self.max_iter > 0 && self.samples > 0 && is_pow2(
                self.max_colours as int,
            ) && self.colour <= 7 && !positive_bits(self.scaley)),
            (r == Result::<(), RenderError>::Err(RenderError::InvalidCentre)) <==> (self.width > 0
                && self.height > 0 && self.max_iter > 0 && self.samples > 0 && is_pow2(
                self.max_colours as int,
            ) && self.colour <= 7 && positive_bits(self.scaley) && !(finite_bits(self.centrex)
                && finite_bits(self.centrey))),
            (r == Result::<(), RenderError>::Err(
                RenderError::GpuDimensionsNotMultipleOfEight,
            )) <==> (self.width > 0 && self.height > 0 && self.max_iter > 0 && self.samples > 0
                && is_pow2(self.max_colours as int) && self.colour <= 7 && positive_bits(
                self.scaley,
            ) && finite_bits(self.centrex) && finite_bits(self.centrey) && backend_of(*self)
                != Backend::Cpu && !(self.width % 8 == 0 && self.height % 8 == 0)),
            (r == Result::<(), RenderError>::Err(RenderError::InvalidThreads)) <==> (self.width > 0
                && self.height > 0 && self.max_iter > 0 && self.samples > 0 && is_pow2(
                self.max_colours as int,
            ) && self.colour <= 7 && positive_bits(self.scaley) && finite_bits(self.centrex)
                && finite_bits(self.centrey) && backend_of(*self) == Backend::Cpu && self.threads
                == 0),
    {
        if self.width == 0 || self.height == 0 {
            Err(RenderError::InvalidDimensions)
        } else if self.max_iter == 0 {
            Err(RenderError::InvalidIterations)
        } else if self.samples == 0 {
            Err(RenderError::InvalidSamples)
        } else if !power_of_two_check(self.max_colours) {
            Err(RenderError::MaxColoursNotPowerOfTwo)
        } else if self.colour > 7 {
            Err(RenderError::ColourFlagsOutOfRange)
        } else if !is_positive_bits(self.scaley) {
            Err(RenderError::InvalidScale)
        } else if !(is_finite_bits(self.centrex) && is_finite_bits(self.centrey)) {
            Err(RenderError::InvalidCentre)
        } else if self.ocl || self.vulkan {
            if self.width % 8 == 0 && self.height % 8 == 0 {
                Ok(())
            } else {
                Err(RenderError::GpuDimensionsNotMultipleOfEight)
            }
        } else if self.threads == 0 {
            Err(RenderError::InvalidThreads)
        } else {
            Ok(())
        }
    }
}

} // verus!
