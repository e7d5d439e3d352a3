use i3lockr::buffer::PixelBuffer;
use i3lockr::brightness::brighten;
use i3lockr::brightness::darken;

#[test]
fn saturating_round_trip_exact_below_clamp() {
    let mut buf = PixelBuffer { width: 1, height: 1, data: vec![100, 100, 100, 100] };
    brighten(&mut buf, 10);
    assert_eq!(buf.data, vec![110, 110, 110, 100]);
    darken(&mut buf, 10);
    assert_eq!(buf.data, vec![100, 100, 100, 100]);
}

#[test]
fn saturating_round_trip_lossy_at_clamp() {
    let mut buf = PixelBuffer { width: 1, height: 1, data: vec![250, 250, 250, 250] };
    brighten(&mut buf, 10);
    assert_eq!(buf.data, vec![255, 255, 255, 250]);
    darken(&mut buf, 10);
    assert_eq!(buf.data, vec![245, 245, 245, 250]);
}

#[test]
fn darken_clamps_at_zero() {
    let mut buf = PixelBuffer { width: 1, height: 1, data: vec![5, 0, 200, 7] };
    darken(&mut buf, 10);
    assert_eq!(buf.data, vec![0, 0, 190, 7]);
}

#[test]
fn alpha_channel_untouched() {
    let mut buf = PixelBuffer { width: 2, height: 1, data: vec![1, 2, 3, 40, 5, 6, 7, 80] };
    brighten(&mut buf, 200);
    assert_eq!(buf.data, vec![201, 202, 203, 40, 205, 206, 207, 80]);
}
