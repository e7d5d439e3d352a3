use i3lockr::buffer::PixelBuffer;
use i3lockr::errors::PipelineError;
use i3lockr::blur::blur;

#[test]
fn radius_zero_on_single_pixel() {
    // A requested radius of 0 is clamped to 1 and must not fail or panic on
    // a 1x1 buffer; averaging a window of border-clamped copies of the one
    // pixel gives the pixel back.
    let mut buf = PixelBuffer { width: 1, height: 1, data: vec![10, 20, 30, 40] };
    assert!(blur(&mut buf, 0).is_ok());
    assert_eq!(buf.width, 1);
    assert_eq!(buf.height, 1);
    assert_eq!(buf.data, vec![10, 20, 30, 40]);
}

#[test]
fn horizontal_window_averages_with_clamped_edges() {
    // A 3x1 row with blue channel 0, 30, 60 and radius 1. The horizontal
    // pass gives (0+0+30)/3, (0+30+60)/3, (30+60+60)/3 = 10, 30, 50; the
    // vertical pass on a single row changes nothing.
    let data = vec![
        0, 0, 0, 0, //
        30, 0, 0, 0, //
        60, 0, 0, 0,
    ];
    let mut buf = PixelBuffer { width: 3, height: 1, data };
    assert!(blur(&mut buf, 1).is_ok());
    assert_eq!(buf.width, 3);
    assert_eq!(buf.height, 1);
    assert_eq!(buf.data[0], 10);
    assert_eq!(buf.data[4], 30);
    assert_eq!(buf.data[8], 50);
}

#[test]
fn radius_clamped_to_half_smaller_dimension() {
    // On a 4x4 buffer the radius is capped at 4 / 2 == 2, so a huge request
    // behaves like radius 2 and terminates.
    let mut buf = PixelBuffer { width: 4, height: 4, data: vec![100; 64] };
    assert!(blur(&mut buf, 255).is_ok());
    // A constant buffer blurs to itself whatever the radius.
    assert_eq!(buf.data, vec![100; 64]);
}

#[test]
fn blur_on_empty_buffer_fails() {
    let mut buf = PixelBuffer { width: 0, height: 5, data: vec![] };
    match blur(&mut buf, 1) {
        Err(e) => assert_eq!(e, PipelineError::InvalidDimension),
        Ok(()) => panic!("blurring an empty buffer must fail"),
    }
}
