use i3lockr::position::wrap_to_screen;
use i3lockr::position::resolve_offsets;
use i3lockr::position::MonitorDescriptor;
use i3lockr::position::PlacementRequest;

#[test]
fn wraparound_coordinates() {
    assert_eq!(wrap_to_screen(-1, 10), 9);
    assert_eq!(wrap_to_screen(-10, 10), 0);
    assert_eq!(wrap_to_screen(0, 10), 0);
    assert_eq!(wrap_to_screen(15, 10), 5);
}

#[test]
fn wraparound_more_cases() {
    assert_eq!(wrap_to_screen(-11, 10), 9);
    assert_eq!(wrap_to_screen(9, 10), 9);
    assert_eq!(wrap_to_screen(10, 10), 0);
}

fn monitor(width: usize, height: usize, origin_x: isize, origin_y: isize) -> MonitorDescriptor {
    MonitorDescriptor { index: 0, width, height, origin_x, origin_y, active: true }
}

#[test]
fn centered_placement() {
    let m = monitor(1920, 1080, 0, 0);
    let (x, y) = resolve_offsets(&PlacementRequest::Centered, &m, 200, 100);
    assert_eq!(x, 860);
    assert_eq!(y, 490);
}

#[test]
fn centered_placement_with_origin() {
    let m = monitor(100, 100, 1920, 50);
    let (x, y) = resolve_offsets(&PlacementRequest::Centered, &m, 20, 20);
    assert_eq!(x, 1960);
    assert_eq!(y, 90);
}

#[test]
fn centered_placement_oversized_overlay_goes_negative() {
    // An overlay larger than the monitor still gets an offset; it is simply
    // off-screen to the top-left.
    let m = monitor(100, 100, 0, 0);
    let (x, y) = resolve_offsets(&PlacementRequest::Centered, &m, 300, 400);
    assert_eq!(x, -100);
    assert_eq!(y, -150);
}

#[test]
fn negative_origin_monitor() {
    // A monitor left of the primary: origin -50, width 100, so its span is
    // 50; -1 wraps to the last position of that span.
    let m = monitor(100, 100, -50, 0);
    let (x, y) = resolve_offsets(&PlacementRequest::Explicit(-1, 0), &m, 10, 10);
    assert_eq!(x, 49);
    assert_eq!(y, 0);
}

#[test]
fn explicit_placement_wraps_within_span() {
    let m = monitor(1000, 500, 0, 0);
    let (x, y) = resolve_offsets(&PlacementRequest::Explicit(945, -20), &m, 64, 64);
    assert_eq!(x, 945);
    assert_eq!(y, 480);
}
