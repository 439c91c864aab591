use vstd::prelude::*;
use crate::node::{Vec3, ONE_F32_BITS};

verus! {

/// Bit pattern of the `f32` value -0.0.
pub const NEG_ZERO_F32_BITS: u32 = 0x8000_0000;
/// Bit pattern of the `f32` value 90.0.
pub const NINETY_F32_BITS: u32 = 0x42b4_0000;
/// Bit pattern of the `f32` value positive infinity.
pub const INFINITY_F32_BITS: u32 = 0x7f80_0000;

/// Whether the `f32` with bits `b` lies in `[0, hi]`, where `hi` is the bits of a
/// finite non-negative bound. Non-negative `f32`s order as their bit patterns do;
/// NaNs fall outside.
pub open spec fn f32_in_range_from_zero(b: u32, hi: u32) -> bool {
    b == NEG_ZERO_F32_BITS || b <= hi
}

/// Whether the `f32` with bits `b` is at least zero (infinity included, NaN not).
pub open spec fn f32_non_negative(b: u32) -> bool {
    b <= INFINITY_F32_BITS || b == NEG_ZERO_F32_BITS
}

/// Camera pose and lens, every real as `f32` bits.
#[derive(Clone, Copy, Debug, PartialEq, Eq, Structural)]
pub struct Camera {
    pub eye_pos: Vec3,
    pub eye_dir: Vec3,
    pub up: Vec3,
    /// Vertical field of view in degrees; must lie in `[0, 90]`.
    pub vfov: u32,
    /// Must lie in `[0, 1]`.
    pub aperture: u32,
    /// Must be at least zero (not NaN).
    pub focus_distance: u32,
}

/// Physical sky inputs, every real as `f32` bits. The sky model itself judges them.
#[derive(Clone, Copy, Debug, PartialEq, Eq, Structural)]
pub struct SkyParams {
    /// Degrees.
    pub azimuth: u32,
    /// Degrees.
    pub zenith: u32,
    pub turbidity: u32,
    pub albedo: Vec3,
}

/// Everything that shapes the image besides the scene.
#[derive(Clone, Copy, Debug, PartialEq, Eq, Structural)]
pub struct RenderParams {
    pub camera: Camera,
    pub sky: SkyParams,
    pub sampling: SamplingParams,
}

/// How many samples a pixel may receive in total, how many per frame, and how
/// many bounces each ray may take.
#[derive(Clone, Copy, Debug, PartialEq, Eq, Structural)]
pub struct SamplingParams {
    pub max_samples_per_pixel: u32,
    pub num_samples_per_pixel: u32,
    pub num_bounces: u32,
}

impl SamplingParams {
    /// The budget is a whole number of per-frame batches.
    pub open spec fn is_valid(self) -> bool {
        self.num_samples_per_pixel != 0 && self.max_samples_per_pixel % self.num_samples_per_pixel == 0
    }
}

impl Default for SamplingParams {
    fn default() -> (r: Self)
        ensures
            r.max_samples_per_pixel == 256,
            r.num_samples_per_pixel == 1,
            r.num_bounces == 8,
    {
        SamplingParams { max_samples_per_pixel: 256, num_samples_per_pixel: 1, num_bounces: 8 }
    }
}

/// The sampling block handed to the GPU kernel for one frame.
#[derive(Clone, Copy, Debug, PartialEq, Eq, Structural)]
pub struct GpuSamplingParams {
    pub num_samples_per_pixel: u32,
    pub num_bounces: u32,
    pub accumulated_samples_per_pixel: u32,
    /// 1 when the kernel must zero its accumulation buffer first.
    pub clear_accumulated_samples: u32,
}

/// Why render parameters were refused.
#[derive(Clone, Copy, Debug, PartialEq, Eq, Structural)]
pub enum RenderParamsValidationError {
    /// The total budget (first) is not a multiple of the per-frame count (second).
    MaxSampleCountNotMultiple(u32, u32),
    /// A viewport side is zero: (width, height).
    ViewportSize(u32, u32),
    /// Field of view outside `[0, 90]` degrees (its `f32` bits).
    VfovOutOfRange(u32),
    /// Aperture outside `[0, 1]` (its `f32` bits).
    ApertureOutOfRange(u32),
    /// Focus distance below zero or NaN (its `f32` bits).
    FocusDistanceOutOfRange(u32),
    /// The physical sky model refused its inputs.
    HwSkyModelValidationError,
}

pub fn validate_sampling(params: &SamplingParams) -> (r: Result<(), RenderParamsValidationError>)
    ensures
        r is Ok <==> params.is_valid(),
        r is Err ==> r == Err::<(), RenderParamsValidationError>(
            RenderParamsValidationError::MaxSampleCountNotMultiple(
                params.max_samples_per_pixel,
                params.num_samples_per_pixel,
            ),
        ),
{
    if params.num_samples_per_pixel == 0
        || params.max_samples_per_pixel % params.num_samples_per_pixel != 0 {
        Err(
            RenderParamsValidationError::MaxSampleCountNotMultiple(
                params.max_samples_per_pixel,
                params.num_samples_per_pixel,
            ),
        )
    } else {
        Ok(())
    }
}

/// The first rule that `params` breaks, checked in order: sample counts, field of
/// view, aperture, focus distance.
pub open spec fn render_params_error(params: RenderParams) -> Option<RenderParamsValidationError> {
    let c = params.camera;
    if !params.sampling.is_valid() {
        Some(
            RenderParamsValidationError::MaxSampleCountNotMultiple(
                params.sampling.max_samples_per_pixel,
                params.sampling.num_samples_per_pixel,
            ),
        )
    } else if !f32_in_range_from_zero(c.vfov, NINETY_F32_BITS) {
        Some(RenderParamsValidationError::VfovOutOfRange(c.vfov))
    } else if !f32_in_range_from_zero(c.aperture, ONE_F32_BITS) {
        Some(RenderParamsValidationError::ApertureOutOfRange(c.aperture))
    } else if !f32_non_negative(c.focus_distance) {
        Some(RenderParamsValidationError::FocusDistanceOutOfRange(c.focus_distance))
    } else {
        None
    }
}

impl RenderParams {
    pub fn validate(&self) -> (r: Result<(), RenderParamsValidationError>)
        ensures
            r is Ok <==> render_params_error(*self) is None,
            r is Err ==> Some(r->Err_0) == render_params_error(*self),
    {
        match validate_sampling(&self.sampling) {
            Ok(()) => {},
            Err(e) => {
                return Err(e);
            },
        }
        let c = &self.camera;
        if !(c.vfov == NEG_ZERO_F32_BITS || c.vfov <= NINETY_F32_BITS) {
            return Err(RenderParamsValidationError::VfovOutOfRange(c.vfov));
        }
        if !(c.aperture == NEG_ZERO_F32_BITS || c.aperture <= ONE_F32_BITS) {
            return Err(RenderParamsValidationError::ApertureOutOfRange(c.aperture));
        }
        if !(c.focus_distance <= INFINITY_F32_BITS || c.focus_distance == NEG_ZERO_F32_BITS) {
            return Err(RenderParamsValidationError::FocusDistanceOutOfRange(c.focus_distance));
        }
        Ok(())
    }
}

pub fn validate_viewport(viewport_size: (u32, u32)) -> (r: Result<(), RenderParamsValidationError>)
    ensures
        r is Ok <==> (viewport_size.0 != 0 && viewport_size.1 != 0),
        r is Err ==> r == Err::<(), RenderParamsValidationError>(
            RenderParamsValidationError::ViewportSize(viewport_size.0, viewport_size.1),
        ),
{
    if viewport_size.0 == 0 || viewport_size.1 == 0 {
        Err(RenderParamsValidationError::ViewportSize(viewport_size.0, viewport_size.1))
    } else {
        Ok(())
    }
}

/// The accumulator's next count and the sampling block for one frame, from the
/// count accumulated so far.
pub open spec fn next_frame_spec(accumulated: u32, params: SamplingParams) -> (u32, GpuSamplingParams) {
    let next = accumulated + params.num_samples_per_pixel;
    if accumulated == 0 {
        (
            params.num_samples_per_pixel,
            GpuSamplingParams {
                num_samples_per_pixel: params.num_samples_per_pixel,
                num_bounces: params.num_bounces,
                accumulated_samples_per_pixel: params.num_samples_per_pixel,
                clear_accumulated_samples: 1,
            },
        )
    } else if next <= params.max_samples_per_pixel {
        (
            next as u32,
            GpuSamplingParams {
                num_samples_per_pixel: params.num_samples_per_pixel,
                num_bounces: params.num_bounces,
                accumulated_samples_per_pixel: next as u32,
                clear_accumulated_samples: 0,
            },
        )
    } else {
        (
            accumulated,
            GpuSamplingParams {
                num_samples_per_pixel: 0,
                num_bounces: params.num_bounces,
                accumulated_samples_per_pixel: accumulated,
                clear_accumulated_samples: 0,
            },
        )
    }
}

/// Samples per pixel accumulated since the last reset.
pub struct RenderProgress {
    pub accumulated_samples_per_pixel: u32,
}

impl RenderProgress {
    pub fn new() -> (r: Self)
        ensures
            r.accumulated_samples_per_pixel == 0,
    {
        RenderProgress { accumulated_samples_per_pixel: 0 }
    }

    /// Advances by one frame: the first frame after a reset clears the buffer,
    /// later frames add to it while the budget allows, and once it is spent the
    /// kernel is told to trace nothing.
    pub fn next_frame(&mut self, sampling_params: &SamplingParams) -> (r: GpuSamplingParams)
        ensures
            (final(self).accumulated_samples_per_pixel, r) == next_frame_spec(
                old(self).accumulated_samples_per_pixel,
                *sampling_params,
            ),
    {
        let current: u32 = self.accumulated_samples_per_pixel;
        if current == 0 {
            self.accumulated_samples_per_pixel = sampling_params.num_samples_per_pixel;
            GpuSamplingParams {
                num_samples_per_pixel: sampling_params.num_samples_per_pixel,
                num_bounces: sampling_params.num_bounces,
                accumulated_samples_per_pixel: sampling_params.num_samples_per_pixel,
                clear_accumulated_samples: 1,
            }
        } else if sampling_params.num_samples_per_pixel <= sampling_params.max_samples_per_pixel
            && current <= sampling_params.max_samples_per_pixel - sampling_params.num_samples_per_pixel {
            let next: u32 = current + sampling_params.num_samples_per_pixel;
            self.accumulated_samples_per_pixel = next;
            GpuSamplingParams {
                num_samples_per_pixel: sampling_params.num_samples_per_pixel,
                num_bounces: sampling_params.num_bounces,
                accumulated_samples_per_pixel: next,
                clear_accumulated_samples: 0,
            }
        } else {
            GpuSamplingParams {
                num_samples_per_pixel: 0,
                num_bounces: sampling_params.num_bounces,
                accumulated_samples_per_pixel: current,
                clear_accumulated_samples: 0,
            }
        }
    }

    pub fn reset(&mut self)
        ensures
            final(self).accumulated_samples_per_pixel == 0,
    {
        self.accumulated_samples_per_pixel = 0;
    }

    pub fn accumulated_samples(&self) -> (r: u32)
        ensures
            r == self.accumulated_samples_per_pixel,
    {
        self.accumulated_samples_per_pixel
    }
}

/// With a budget that is a whole number of batches, the count never passes the
/// budget: starting from a reset, each frame either adds a batch or holds.
pub proof fn lemma_next_frame_within_budget(accumulated: u32, params: SamplingParams)
    requires
        params.is_valid(),
        accumulated <= params.max_samples_per_pixel,
        params.num_samples_per_pixel <= params.max_samples_per_pixel,
    ensures
        next_frame_spec(accumulated, params).0 <= params.max_samples_per_pixel,
        next_frame_spec(accumulated, params).1.num_samples_per_pixel == 0
            ==> next_frame_spec(accumulated, params).0 == accumulated,
{
}

/// Clearing happens exactly on the first frame after a reset.
pub proof fn lemma_clear_only_after_reset(accumulated: u32, params: SamplingParams)
    ensures
        (next_frame_spec(accumulated, params).1.clear_accumulated_samples == 1) <==> accumulated == 0,
{
}

} // verus!
