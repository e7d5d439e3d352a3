//! Pixel-transformation pipeline for a screen-locker: a captured screenshot
//! is scaled down, box-blurred, scaled back up, brightened or darkened, and
//! overlaid with an icon per monitor, before its raw bytes are handed to the
//! lock renderer.

pub mod buffer;
pub mod errors;
pub mod position;
pub mod brightness;
pub mod scale;
pub mod blur;
pub mod overlay;
pub mod handoff;
pub mod pipeline;
