use i3lockr::buffer::OverlayImage;
use i3lockr::buffer::PixelBuffer;
use i3lockr::overlay::compose_monitors;
use i3lockr::overlay::overlay;
use i3lockr::position::MonitorDescriptor;
use i3lockr::position::PlacementRequest;

fn one_pixel_dst(b: u8, g: u8, r: u8, a: u8) -> PixelBuffer {
    PixelBuffer { width: 1, height: 1, data: vec![b, g, r, a] }
}

fn one_pixel_icon(b: u8, g: u8, r: u8, a: u8) -> OverlayImage {
    OverlayImage { width: 1, height: 1, data: vec![b, g, r, a] }
}

#[test]
fn opaque_overlay_replaces_destination() {
    let mut dst = one_pixel_dst(10, 20, 30, 99);
    let icon = one_pixel_icon(1, 2, 3, 255);
    overlay(&mut dst, &icon, 0, 0, false);
    // Color channels fully replaced; the destination's alpha is kept.
    assert_eq!(dst.data, vec![1, 2, 3, 99]);
}

#[test]
fn transparent_overlay_leaves_destination() {
    let mut dst = one_pixel_dst(10, 20, 30, 99);
    let icon = one_pixel_icon(200, 200, 200, 0);
    overlay(&mut dst, &icon, 0, 0, false);
    assert_eq!(dst.data, vec![10, 20, 30, 99]);
}

#[test]
fn partial_alpha_blends() {
    // blend(100, 200, 128) == (100 * 127 + 200 * 128) / 255 == 150.
    let mut dst = one_pixel_dst(100, 100, 100, 0);
    let icon = one_pixel_icon(200, 200, 200, 128);
    overlay(&mut dst, &icon, 0, 0, false);
    assert_eq!(dst.data, vec![150, 150, 150, 0]);
}

#[test]
fn invert_mode_complements_destination() {
    // With full overlay alpha, a destination channel c becomes 255 - c; the
    // overlay's own color channels are ignored.
    let mut dst = one_pixel_dst(100, 0, 255, 77);
    let icon = one_pixel_icon(11, 22, 33, 255);
    overlay(&mut dst, &icon, 0, 0, true);
    assert_eq!(dst.data, vec![155, 255, 0, 77]);
}

#[test]
fn off_screen_pixels_skipped() {
    let mut dst = one_pixel_dst(10, 20, 30, 40);
    let icon = OverlayImage { width: 2, height: 2, data: vec![255; 16] };
    // Offset (-1, -1): only the icon's bottom-right pixel lands on the buffer.
    overlay(&mut dst, &icon, -1, -1, false);
    assert_eq!(dst.data, vec![255, 255, 255, 40]);
    // Fully off-screen: nothing changes.
    let mut far = one_pixel_dst(10, 20, 30, 40);
    overlay(&mut far, &icon, 5, 5, false);
    assert_eq!(far.data, vec![10, 20, 30, 40]);
}

fn small_monitor(index: usize, active: bool) -> MonitorDescriptor {
    MonitorDescriptor { index, width: 1, height: 1, origin_x: 0, origin_y: 0, active }
}

#[test]
fn ignored_monitor_gets_no_writes() {
    let mut dst = one_pixel_dst(10, 20, 30, 40);
    let icon = one_pixel_icon(255, 255, 255, 255);
    let monitors = vec![small_monitor(0, true)];
    compose_monitors(&mut dst, &icon, &monitors, &PlacementRequest::Explicit(0, 0), &vec![0], false);
    assert_eq!(dst.data, vec![10, 20, 30, 40]);
}

#[test]
fn inactive_monitor_gets_no_writes() {
    let mut dst = one_pixel_dst(10, 20, 30, 40);
    let icon = one_pixel_icon(255, 255, 255, 255);
    let monitors = vec![small_monitor(0, false)];
    compose_monitors(&mut dst, &icon, &monitors, &PlacementRequest::Centered, &vec![], false);
    assert_eq!(dst.data, vec![10, 20, 30, 40]);
}

#[test]
fn active_monitor_composites() {
    let mut dst = one_pixel_dst(10, 20, 30, 40);
    let icon = one_pixel_icon(1, 2, 3, 255);
    let monitors = vec![small_monitor(3, true)];
    compose_monitors(&mut dst, &icon, &monitors, &PlacementRequest::Explicit(0, 0), &vec![0, 1], false);
    assert_eq!(dst.data, vec![1, 2, 3, 40]);
}
