use i3lockr::buffer::OverlayImage;
use i3lockr::buffer::PixelBuffer;
use i3lockr::errors::PipelineError;
use i3lockr::pipeline::run_pipeline;
use i3lockr::pipeline::PipelineConfig;
use i3lockr::position::MonitorDescriptor;
use i3lockr::position::PlacementRequest;

fn config() -> PipelineConfig {
    PipelineConfig {
        scale_factor: None,
        blur_radius: None,
        brighten: None,
        darken: None,
        invert: false,
        ignored_monitors: vec![],
        placement: PlacementRequest::Centered,
    }
}

#[test]
fn disabled_stages_pass_buffer_through() {
    let buf = PixelBuffer { width: 2, height: 1, data: vec![1, 2, 3, 4, 5, 6, 7, 8] };
    let out = run_pipeline(buf, &config(), None, &vec![]).unwrap();
    assert_eq!(out.width, 2);
    assert_eq!(out.height, 1);
    assert_eq!(out.data, vec![1, 2, 3, 4, 5, 6, 7, 8]);
}

#[test]
fn scale_round_trip_shrinks_dimensions() {
    let buf = PixelBuffer { width: 5, height: 5, data: vec![9; 100] };
    let mut cfg = config();
    cfg.scale_factor = Some(2);
    let out = run_pipeline(buf, &cfg, None, &vec![]).unwrap();
    // 5 / 2 == 2 down, 2 * 2 == 4 back up.
    assert_eq!(out.width, 4);
    assert_eq!(out.height, 4);
    assert_eq!(out.data, vec![9; 64]);
}

#[test]
fn brighten_then_darken_in_order() {
    let buf = PixelBuffer { width: 1, height: 1, data: vec![250, 100, 0, 9] };
    let mut cfg = config();
    cfg.brighten = Some(10);
    cfg.darken = Some(10);
    let out = run_pipeline(buf, &cfg, None, &vec![]).unwrap();
    // 250 saturates to 255 and comes back 245; 100 round-trips; 0 brightens
    // to 10 and returns to 0; alpha is untouched.
    assert_eq!(out.data, vec![245, 100, 0, 9]);
}

#[test]
fn overlay_runs_once_per_active_monitor() {
    let buf = PixelBuffer { width: 2, height: 1, data: vec![0, 0, 0, 9, 0, 0, 0, 9] };
    let icon = OverlayImage { width: 1, height: 1, data: vec![1, 2, 3, 255] };
    let monitors = vec![
        MonitorDescriptor { index: 0, width: 1, height: 1, origin_x: 0, origin_y: 0, active: true },
        MonitorDescriptor { index: 1, width: 1, height: 1, origin_x: 1, origin_y: 0, active: true },
        MonitorDescriptor { index: 2, width: 2, height: 1, origin_x: 0, origin_y: 0, active: false },
    ];
    let cfg = config();
    let out = run_pipeline(buf, &cfg, Some(&icon), &monitors).unwrap();
    // Each active monitor composites the icon at its own origin.
    assert_eq!(out.data, vec![1, 2, 3, 9, 1, 2, 3, 9]);
}

#[test]
fn overlay_respects_ignored_monitors() {
    let buf = PixelBuffer { width: 2, height: 1, data: vec![0, 0, 0, 9, 0, 0, 0, 9] };
    let icon = OverlayImage { width: 1, height: 1, data: vec![1, 2, 3, 255] };
    let monitors = vec![
        MonitorDescriptor { index: 0, width: 1, height: 1, origin_x: 0, origin_y: 0, active: true },
        MonitorDescriptor { index: 1, width: 1, height: 1, origin_x: 1, origin_y: 0, active: true },
    ];
    let mut cfg = config();
    cfg.ignored_monitors = vec![0];
    let out = run_pipeline(buf, &cfg, Some(&icon), &monitors).unwrap();
    assert_eq!(out.data, vec![0, 0, 0, 9, 1, 2, 3, 9]);
}

#[test]
fn oversized_scale_factor_fails() {
    let buf = PixelBuffer { width: 4, height: 4, data: vec![0; 64] };
    let mut cfg = config();
    cfg.scale_factor = Some(8);
    match run_pipeline(buf, &cfg, None, &vec![]) {
        Err(e) => assert_eq!(e, PipelineError::InvalidDimension),
        Ok(_) => panic!("scaling 4x4 down by 8 must fail"),
    }
}

#[test]
fn blur_amplified_by_scaling_still_bounded() {
    // Scale down by 2, blur with radius 1, scale back up: a constant buffer
    // stays constant through every stage.
    let buf = PixelBuffer { width: 4, height: 4, data: vec![77; 64] };
    let mut cfg = config();
    cfg.scale_factor = Some(2);
    cfg.blur_radius = Some(1);
    let out = run_pipeline(buf, &cfg, None, &vec![]).unwrap();
    assert_eq!(out.width, 4);
    assert_eq!(out.height, 4);
    assert_eq!(out.data, vec![77; 64]);
}
