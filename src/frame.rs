use vstd::prelude::*;
use crate::progress::{
    next_frame_spec, render_params_error, validate_viewport, GpuSamplingParams, RenderParams,
    RenderParamsValidationError, RenderProgress,
};

verus! {

/// What the GPU side has to do for one frame.
#[derive(Clone, Copy, Debug, PartialEq, Eq, Structural)]
pub struct FramePlan {
    /// Camera and sky buffers are rewritten (and accumulation restarted).
    pub write_parameters: bool,
    /// The scene storage buffers and their bind group are rebuilt.
    pub rebuild_scene: bool,
    /// The sampling block written this frame.
    pub sampling: GpuSamplingParams,
    /// Viewport width, height and frame number, written to the per-frame uniform.
    pub viewport_width: u32,
    pub viewport_height: u32,
    pub frame_number: u32,
}

/// Host-side state of the renderer between frames.
pub struct FrameState {
    pub render_progress: RenderProgress,
    /// The parameters last written to the GPU.
    pub latest_render_params: RenderParams,
    pub frame_number: u32,
}

impl FrameState {
    /// A renderer starts at frame 1 with nothing accumulated. Its parameters must
    /// pass validation, and the physical sky model must have accepted their sky
    /// inputs (`sky_accepted`, the verdict of the sky model run on `render_params.sky`).
    pub fn new(render_params: RenderParams, sky_accepted: bool) -> (r: Result<FrameState, RenderParamsValidationError>)
        ensures
            r is Ok <==> render_params_error(render_params) is None && sky_accepted,
            r is Ok ==> r->Ok_0.latest_render_params == render_params && r->Ok_0.frame_number == 1
                && r->Ok_0.render_progress.accumulated_samples_per_pixel == 0,
            render_params_error(render_params) is Some ==> r is Err && Some(r->Err_0) == render_params_error(
                render_params,
            ),
            render_params_error(render_params) is None && !sky_accepted ==> r == Err::<
                FrameState,
                RenderParamsValidationError,
            >(RenderParamsValidationError::HwSkyModelValidationError),
    {
        match render_params.validate() {
            Ok(()) => {},
            Err(e) => {
                return Err(e);
            },
        }
        if !sky_accepted {
            return Err(RenderParamsValidationError::HwSkyModelValidationError);
        }
        Ok(FrameState { render_progress: RenderProgress::new(), latest_render_params: render_params, frame_number: 1 })
    }

    /// Plans one frame. Parameters that differ from those last installed, or a
    /// freshly compiled scene, make the camera and sky buffers be written and the
    /// accumulation restart. `sky_accepted` is the verdict of the physical sky model
    /// on `render_params.sky`. Inputs are checked before anything changes (parameters,
    /// then viewport, then sky): on an error the state is left as it was and no frame
    /// is to be submitted.
    pub fn prepare_frame(
        &mut self,
        render_params: &RenderParams,
        sky_accepted: bool,
        new_scene: bool,
        viewport_size: (u32, u32),
    ) -> (r: Result<FramePlan, RenderParamsValidationError>)
        ensures
            ({
                let write = new_scene || *render_params != old(self).latest_render_params;
                let params_error = if write { render_params_error(*render_params) } else { None };
                let viewport_zero = viewport_size.0 == 0 || viewport_size.1 == 0;
                let sky_refused = write && !sky_accepted;
                &&& r is Err ==> *final(self) == *old(self)
                &&& r is Err <==> params_error is Some || viewport_zero || sky_refused
                &&& params_error is Some ==> r == Err::<FramePlan, RenderParamsValidationError>(
                    params_error->Some_0,
                )
                &&& params_error is None && viewport_zero ==> r == Err::<FramePlan, RenderParamsValidationError>(
                    RenderParamsValidationError::ViewportSize(viewport_size.0, viewport_size.1),
                )
                &&& params_error is None && !viewport_zero && sky_refused ==> r == Err::<
                    FramePlan,
                    RenderParamsValidationError,
                >(RenderParamsValidationError::HwSkyModelValidationError)
                &&& r is Ok ==> {
                    let installed = if write { *render_params } else { old(self).latest_render_params };
                    let start = if write { 0 } else { old(self).render_progress.accumulated_samples_per_pixel };
                    &&& r->Ok_0.write_parameters == write
                    &&& r->Ok_0.rebuild_scene == new_scene
                    &&& final(self).latest_render_params == installed
                    &&& (final(self).render_progress.accumulated_samples_per_pixel, r->Ok_0.sampling)
                        == next_frame_spec(start, installed.sampling)
                    &&& r->Ok_0.viewport_width == viewport_size.0
                    &&& r->Ok_0.viewport_height == viewport_size.1
                    &&& r->Ok_0.frame_number == old(self).frame_number
                    &&& final(self).frame_number == old(self).frame_number.wrapping_add(1)
                }
            }),
    {
        let write = new_scene || *render_params != self.latest_render_params;
        if write {
            match render_params.validate() {
                Ok(()) => {},
                Err(e) => {
                    return Err(e);
                },
            }
        }
        match validate_viewport(viewport_size) {
            Ok(()) => {},
            Err(e) => {
                return Err(e);
            },
        }
        if write && !sky_accepted {
            return Err(RenderParamsValidationError::HwSkyModelValidationError);
        }
        if write {
            self.latest_render_params = *render_params;
            self.render_progress.reset();
        }
        let gpu_sampling = self.render_progress.next_frame(&self.latest_render_params.sampling);
        let frame_number = self.frame_number;
        self.frame_number = self.frame_number.wrapping_add(1);
        Ok(
            FramePlan {
                write_parameters: write,
                rebuild_scene: new_scene,
                sampling: gpu_sampling,
                viewport_width: viewport_size.0,
                viewport_height: viewport_size.1,
                frame_number,
            },
        )
    }

    /// Samples per pixel accumulated so far.
    pub fn accumulated_samples(&self) -> (r: u32)
        ensures
            r == self.render_progress.accumulated_samples_per_pixel,
    {
        self.render_progress.accumulated_samples()
    }
}

} // verus!
