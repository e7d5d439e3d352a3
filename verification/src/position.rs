//! Placement of the overlay icon on each monitor: wraparound resolution of
//! signed coordinates, and the centered default.

use vstd::prelude::*;

verus! {

/// Where the overlay icon goes: centered on each monitor, or at an explicit
/// signed coordinate, where a negative value counts from the far edge.
#[derive(Clone, Copy)]
pub enum PlacementRequest {
    Centered,
    Explicit(isize, isize),
}

/// One output device as the enumeration collaborator reports it.
#[derive(Clone, Copy)]
pub struct MonitorDescriptor {
    pub index: usize,
    pub width: usize,
    pub height: usize,
    pub origin_x: isize,
    pub origin_y: isize,
    pub active: bool,
}

/// A signed coordinate resolved against a span: nonnegative values wrap
/// forward, negative values count back from the far edge.
pub open spec fn wrap_spec(idx: int, len: int) -> int
    recommends
        len > 0,
{
    if idx >= 0 {
        idx % len
    } else {
        let pos = (-idx) % len;
        if pos == 0 {
            0
        } else {
            len - pos
        }
    }
}

/// Resolve a signed placement coordinate against a span (monitor dimension
/// plus its origin offset). `-1` means the last position of the span, `-span`
/// wraps to `0`, and nonnegative coordinates reduce modulo the span.
pub fn wrap_to_screen(idx: isize, len: usize) -> (r: usize)
    requires
        len > 0,
    ensures
        r == wrap_spec(idx as int, len as int),
        r < len,
{
    if idx >= 0 {
        (idx as usize) % len
    } else {
        let mag: usize = ((-(idx + 1)) as usize) + 1;
        assert(mag == -(idx as int));
        let pos: usize = mag % len;
        if pos == 0 {
            0
        } else {
            len - pos
        }
    }
}

/// The centered default on one axis: the monitor's midpoint, less half the
/// overlay, shifted by the monitor's origin.
pub open spec fn centered_offset(origin: int, monitor_dim: int, image_dim: int) -> int {
    origin + monitor_dim / 2 - image_dim / 2
}

impl MonitorDescriptor {
    /// Bounds under which placement arithmetic for an overlay of the given
    /// dimensions stays within machine integers: nonempty dimensions, a
    /// positive span on each axis (the origin may be negative, as on a
    /// monitor left of or above the primary), and sums that fit an `isize`.
    pub open spec fn fits(&self, image_w: int, image_h: int) -> bool {
        &&& self.width >= 1
        &&& self.height >= 1
        &&& self.origin_x + self.width > 0
        &&& self.origin_y + self.height > 0
        &&& self.width + image_w <= isize::MAX
        &&& self.height + image_h <= isize::MAX
        &&& self.origin_x + self.width + image_w <= isize::MAX
        &&& self.origin_y + self.height + image_h <= isize::MAX
    }
}

/// The horizontal offset a placement request resolves to on a monitor.
pub open spec fn resolved_x(p: PlacementRequest, m: MonitorDescriptor, image_w: int) -> int {
    match p {
        PlacementRequest::Centered => centered_offset(m.origin_x as int, m.width as int, image_w),
        PlacementRequest::Explicit(px, _) => wrap_spec(px as int, m.origin_x + m.width),
    }
}

/// The vertical offset a placement request resolves to on a monitor.
pub open spec fn resolved_y(p: PlacementRequest, m: MonitorDescriptor, image_h: int) -> int {
    match p {
        PlacementRequest::Centered => centered_offset(m.origin_y as int, m.height as int, image_h),
        PlacementRequest::Explicit(_, py) => wrap_spec(py as int, m.origin_y + m.height),
    }
}

/// Resolve a placement request into the absolute offset of the overlay's
/// top-left corner on one monitor. An explicit coordinate wraps within the
/// monitor's far edge (`origin + dimension`); the default centers the overlay
/// on the monitor, which may fall off-screen when the overlay is larger.
pub fn resolve_offsets(p: &PlacementRequest, m: &MonitorDescriptor, image_w: usize, image_h: usize) -> (r: (isize, isize))
    requires
        m.fits(image_w as int, image_h as int),
    ensures
        r.0 == resolved_x(*p, *m, image_w as int),
        r.1 == resolved_y(*p, *m, image_h as int),
        r.0 + image_w <= isize::MAX,
        r.1 + image_h <= isize::MAX,
{
    match p {
        PlacementRequest::Centered => {
            let x: isize = m.origin_x + ((m.width / 2) as isize) - ((image_w / 2) as isize);
            let y: isize = m.origin_y + ((m.height / 2) as isize) - ((image_h / 2) as isize);
            (x, y)
        },
        PlacementRequest::Explicit(px, py) => {
            let span_x: isize = m.origin_x + (m.width as isize);
            let span_y: isize = m.origin_y + (m.height as isize);
            let x: usize = wrap_to_screen(*px, span_x as usize);
            let y: usize = wrap_to_screen(*py, span_y as usize);
            (x as isize, y as isize)
        },
    }
}

} // verus!
