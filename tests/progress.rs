use noded::frame::FrameState;
use noded::node::Vec3;
use noded::progress::{
    validate_sampling, validate_viewport, Camera, RenderParams, RenderParamsValidationError, RenderProgress,
    SamplingParams, SkyParams,
};

fn sampling(max: u32, num: u32) -> SamplingParams {
    SamplingParams { max_samples_per_pixel: max, num_samples_per_pixel: num, num_bounces: 8 }
}

fn zero() -> Vec3 {
    Vec3 { x: 0, y: 0, z: 0 }
}

fn camera() -> Camera {
    Camera {
        eye_pos: zero(),
        eye_dir: Vec3 { x: 0, y: 0, z: 1.0f32.to_bits() },
        up: Vec3 { x: 0, y: 1.0f32.to_bits(), z: 0 },
        vfov: 30.0f32.to_bits(),
        aperture: 0.8f32.to_bits(),
        focus_distance: 10.0f32.to_bits(),
    }
}

fn params(max: u32, num: u32) -> RenderParams {
    RenderParams {
        camera: camera(),
        sky: SkyParams {
            azimuth: 0.0f32.to_bits(),
            zenith: 85.0f32.to_bits(),
            turbidity: 4.0f32.to_bits(),
            albedo: Vec3 { x: 1.0f32.to_bits(), y: 1.0f32.to_bits(), z: 1.0f32.to_bits() },
        },
        sampling: sampling(max, num),
    }
}

#[test]
fn accumulator_four_frames_then_converged() {
    let mut p = RenderProgress::new();
    let s = sampling(256, 64);
    let clears: Vec<u32> = (0..4).map(|_| p.next_frame(&s)).map(|g| g.clear_accumulated_samples).collect();
    assert_eq!(clears, vec![1, 0, 0, 0]);
    assert_eq!(p.accumulated_samples(), 256);
    let fifth = p.next_frame(&s);
    assert_eq!(fifth.num_samples_per_pixel, 0);
    assert_eq!(fifth.accumulated_samples_per_pixel, 256);
    assert_eq!(p.accumulated_samples(), 256);
}

#[test]
fn accumulator_counts_each_frame() {
    let mut p = RenderProgress::new();
    let s = sampling(256, 64);
    let acc: Vec<u32> = (0..4).map(|_| p.next_frame(&s).accumulated_samples_per_pixel).collect();
    assert_eq!(acc, vec![64, 128, 192, 256]);
}

#[test]
fn accumulator_reset_clears_again() {
    let mut p = RenderProgress::new();
    let s = sampling(4, 1);
    p.next_frame(&s);
    p.next_frame(&s);
    p.reset();
    assert_eq!(p.accumulated_samples(), 0);
    let g = p.next_frame(&s);
    assert_eq!(g.clear_accumulated_samples, 1);
    assert_eq!(g.accumulated_samples_per_pixel, 1);
    assert_eq!(g.num_bounces, 8);
}

#[test]
fn sample_count_not_multiple_is_refused() {
    assert_eq!(
        validate_sampling(&sampling(100, 3)),
        Err(RenderParamsValidationError::MaxSampleCountNotMultiple(100, 3))
    );
    assert_eq!(validate_sampling(&sampling(99, 3)), Ok(()));
    assert_eq!(
        validate_sampling(&sampling(100, 0)),
        Err(RenderParamsValidationError::MaxSampleCountNotMultiple(100, 0))
    );
    assert_eq!(params(100, 3).validate(), Err(RenderParamsValidationError::MaxSampleCountNotMultiple(100, 3)));
}

#[test]
fn vfov_out_of_range_is_refused() {
    let mut p = params(256, 1);
    p.camera.vfov = 95.0f32.to_bits();
    assert_eq!(p.validate(), Err(RenderParamsValidationError::VfovOutOfRange(95.0f32.to_bits())));
    p.camera.vfov = 90.0f32.to_bits();
    assert_eq!(p.validate(), Ok(()));
    p.camera.vfov = (-1.0f32).to_bits();
    assert_eq!(p.validate(), Err(RenderParamsValidationError::VfovOutOfRange((-1.0f32).to_bits())));
    p.camera.vfov = (-0.0f32).to_bits();
    assert_eq!(p.validate(), Ok(()));
    p.camera.vfov = f32::NAN.to_bits();
    assert!(matches!(p.validate(), Err(RenderParamsValidationError::VfovOutOfRange(_))));
}

#[test]
fn aperture_and_focus_are_checked() {
    let mut p = params(256, 1);
    p.camera.aperture = 1.5f32.to_bits();
    assert_eq!(p.validate(), Err(RenderParamsValidationError::ApertureOutOfRange(1.5f32.to_bits())));
    p.camera.aperture = 1.0f32.to_bits();
    p.camera.focus_distance = (-2.0f32).to_bits();
    assert_eq!(p.validate(), Err(RenderParamsValidationError::FocusDistanceOutOfRange((-2.0f32).to_bits())));
    p.camera.focus_distance = 0.0f32.to_bits();
    assert_eq!(p.validate(), Ok(()));
    p.camera.focus_distance = f32::NAN.to_bits();
    assert_eq!(p.validate(), Err(RenderParamsValidationError::FocusDistanceOutOfRange(f32::NAN.to_bits())));
    p.camera.focus_distance = f32::INFINITY.to_bits();
    assert_eq!(p.validate(), Ok(()));
}

#[test]
fn zero_viewport_is_refused() {
    assert_eq!(validate_viewport((0, 10)), Err(RenderParamsValidationError::ViewportSize(0, 10)));
    assert_eq!(validate_viewport((10, 0)), Err(RenderParamsValidationError::ViewportSize(10, 0)));
    assert_eq!(validate_viewport((10, 10)), Ok(()));
}

#[test]
fn frame_plan_restarts_on_change_and_keeps_state_on_error() {
    let mut state = FrameState::new(params(4, 2), true).ok().unwrap();
    let first = state.prepare_frame(&params(4, 2), true, true, (8, 6)).unwrap();
    assert!(first.write_parameters && first.rebuild_scene);
    assert_eq!(first.sampling.clear_accumulated_samples, 1);
    assert_eq!((first.viewport_width, first.viewport_height, first.frame_number), (8, 6, 1));
    let second = state.prepare_frame(&params(4, 2), true, false, (8, 6)).unwrap();
    assert!(!second.write_parameters);
    assert_eq!(second.sampling.accumulated_samples_per_pixel, 4);
    assert_eq!(second.frame_number, 2);
    let refused = state.prepare_frame(&params(4, 3), true, false, (8, 6));
    assert_eq!(refused, Err(RenderParamsValidationError::MaxSampleCountNotMultiple(4, 3)));
    assert_eq!(state.accumulated_samples(), 4);
    assert_eq!(state.frame_number, 3);
    let zero_view = state.prepare_frame(&params(4, 2), true, false, (0, 6));
    assert_eq!(zero_view, Err(RenderParamsValidationError::ViewportSize(0, 6)));
    let changed = state.prepare_frame(&params(8, 2), true, false, (8, 6)).unwrap();
    assert!(changed.write_parameters);
    assert_eq!(changed.sampling.clear_accumulated_samples, 1);
    assert_eq!(state.accumulated_samples(), 2);
}

#[test]
fn invalid_initial_params_are_refused() {
    assert!(FrameState::new(params(10, 4), true).is_err());
}

#[test]
fn sky_refusal_is_checked_before_any_change() {
    assert_eq!(FrameState::new(params(4, 2), false).err(), Some(RenderParamsValidationError::HwSkyModelValidationError));
    let mut state = FrameState::new(params(4, 2), true).ok().unwrap();
    state.prepare_frame(&params(4, 2), true, false, (8, 6)).unwrap();
    let refused = state.prepare_frame(&params(8, 2), false, false, (8, 6));
    assert_eq!(refused, Err(RenderParamsValidationError::HwSkyModelValidationError));
    assert_eq!(state.latest_render_params, params(4, 2));
    assert_eq!(state.accumulated_samples(), 2);
    assert_eq!(state.frame_number, 2);
    // with nothing to write, the sky verdict is not consulted
    let kept = state.prepare_frame(&params(4, 2), false, false, (8, 6)).unwrap();
    assert!(!kept.write_parameters);
}
