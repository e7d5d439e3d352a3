use i3lockr::buffer::PixelBuffer;
use i3lockr::errors::PipelineError;
use i3lockr::scale::scale_down;
use i3lockr::scale::scale_up;

fn solid(width: usize, height: usize, value: u8) -> PixelBuffer {
    PixelBuffer { width, height, data: vec![value; width * height * 4] }
}

#[test]
fn round_trip_loses_partial_blocks() {
    // 100 / 3 == 33, and back up: 33 * 3 == 99, not 100.
    let buf = solid(100, 100, 7);
    let down = scale_down(&buf, 3).unwrap();
    assert_eq!(down.width, 33);
    assert_eq!(down.height, 33);
    let up = scale_up(&down, 3);
    assert_eq!(up.width, 99);
    assert_eq!(up.height, 99);
    assert_eq!(up.data.len(), 99 * 99 * 4);
}

#[test]
fn downscale_averages_blocks() {
    // One 2x2 block whose blue channel holds 10, 20, 30, 40: average 25.
    // The other channels hold constants and average to themselves.
    let data = vec![
        10, 1, 2, 255, //
        20, 1, 2, 255, //
        30, 1, 2, 255, //
        40, 1, 2, 255,
    ];
    let buf = PixelBuffer { width: 2, height: 2, data };
    let down = scale_down(&buf, 2).unwrap();
    assert_eq!(down.width, 1);
    assert_eq!(down.height, 1);
    assert_eq!(down.data, vec![25, 1, 2, 255]);
}

#[test]
fn downscale_truncates_average() {
    // Blue channel 0, 0, 0, 1 sums to 1; 1 / 4 == 0 in integer division.
    let data = vec![
        0, 0, 0, 0, //
        0, 0, 0, 0, //
        0, 0, 0, 0, //
        1, 0, 0, 0,
    ];
    let buf = PixelBuffer { width: 2, height: 2, data };
    let down = scale_down(&buf, 2).unwrap();
    assert_eq!(down.data, vec![0, 0, 0, 0]);
}

#[test]
fn upscale_replicates_pixels() {
    let buf = PixelBuffer { width: 1, height: 1, data: vec![9, 8, 7, 6] };
    let up = scale_up(&buf, 2);
    assert_eq!(up.width, 2);
    assert_eq!(up.height, 2);
    assert_eq!(up.data, vec![9, 8, 7, 6, 9, 8, 7, 6, 9, 8, 7, 6, 9, 8, 7, 6]);
}

#[test]
fn downscale_to_empty_fails() {
    let buf = solid(1, 1, 0);
    match scale_down(&buf, 2) {
        Err(e) => assert_eq!(e, PipelineError::InvalidDimension),
        Ok(_) => panic!("a downscale to an empty buffer must fail"),
    }
}
