//! The whole pipeline in its fixed order: scale down, blur, scale up,
//! brighten, darken, overlay per monitor. Each stage runs only when its
//! configuration value is present; any stage failure aborts the run.

use vstd::prelude::*;
use crate::buffer::PixelBuffer;
use crate::buffer::OverlayImage;
use crate::errors::PipelineError;
use crate::position::MonitorDescriptor;
use crate::position::PlacementRequest;
use crate::brightness::brightened_data;
use crate::brightness::darkened_data;
use crate::brightness::brighten;
use crate::brightness::darken;
use crate::scale::scaled_down_data;
use crate::scale::scaled_up_data;
use crate::scale::scale_down;
use crate::scale::scale_up;
use crate::scale::lemma_scale_round_trip_dims;
use crate::blur::blurred_data;
use crate::blur::effective_radius;
use crate::blur::blur;
use crate::overlay::apply_all_monitors;
use crate::overlay::compose_monitors;

verus! {

/// The optional knobs of one run, built once by the CLI collaborator.
pub struct PipelineConfig {
    pub scale_factor: Option<usize>,
    pub blur_radius: Option<u8>,
    pub brighten: Option<u8>,
    pub darken: Option<u8>,
    pub invert: bool,
    pub ignored_monitors: Vec<usize>,
    pub placement: PlacementRequest,
}

impl PipelineConfig {
    /// What the CLI collaborator guarantees before the core runs. Only the
    /// scale factor needs a range here; a blur radius is clamped and the
    /// brightness amounts saturate, whatever their values.
    pub open spec fn wf(&self) -> bool {
        self.scale_factor matches Some(f) ==> 1 <= f <= 255
    }
}

/// The buffer after the optional scale-down stage.
pub open spec fn stage_scale_down(d: Seq<u8>, w: int, h: int, f_opt: Option<usize>) -> Result<
    (Seq<u8>, int, int),
    PipelineError,
> {
    match f_opt {
        Option::None => Ok((d, w, h)),
        Option::Some(f) => {
            if w / (f as int) == 0 || h / (f as int) == 0 {
                Err(PipelineError::InvalidDimension)
            } else {
                Ok((scaled_down_data(d, w, h, f as int), w / (f as int), h / (f as int)))
            }
        },
    }
}

/// The buffer after the optional blur stage.
pub open spec fn stage_blur(d: Seq<u8>, w: int, h: int, r_opt: Option<u8>) -> Result<
    (Seq<u8>, int, int),
    PipelineError,
> {
    match r_opt {
        Option::None => Ok((d, w, h)),
        Option::Some(rad) => {
            if w == 0 || h == 0 {
                Err(PipelineError::InvalidDimension)
            } else {
                Ok((blurred_data(d, w, h, effective_radius(rad, w, h)), w, h))
            }
        },
    }
}

/// The buffer after the optional scale-up stage.
pub open spec fn stage_scale_up(d: Seq<u8>, w: int, h: int, f_opt: Option<usize>) -> (Seq<u8>, int, int) {
    match f_opt {
        Option::None => (d, w, h),
        Option::Some(f) => (scaled_up_data(d, w, h, f as int), w * f, h * f),
    }
}

/// The buffer after the optional brighten stage.
pub open spec fn stage_brighten(d: Seq<u8>, b_opt: Option<u8>) -> Seq<u8> {
    match b_opt {
        Option::None => d,
        Option::Some(b) => brightened_data(d, b),
    }
}

/// The buffer after the optional darken stage.
pub open spec fn stage_darken(d: Seq<u8>, b_opt: Option<u8>) -> Seq<u8> {
    match b_opt {
        Option::None => d,
        Option::Some(b) => darkened_data(d, b),
    }
}

/// The overlay image's bytes and dimensions, when one was decoded.
pub open spec fn overlay_view(icon: Option<&OverlayImage>) -> Option<(Seq<u8>, int, int)> {
    match icon {
        Option::None => Option::None,
        Option::Some(img) => Option::Some((img.data@, img.width as int, img.height as int)),
    }
}

/// The buffer after the optional per-monitor overlay stage.
pub open spec fn stage_overlay(
    d: Seq<u8>,
    w: int,
    h: int,
    icon: Option<(Seq<u8>, int, int)>,
    monitors: Seq<MonitorDescriptor>,
    p: PlacementRequest,
    ignored: Seq<usize>,
    invert: bool,
) -> Seq<u8> {
    match icon {
        Option::None => d,
        Option::Some(ov) => apply_all_monitors(d, w, h, ov.0, ov.1, ov.2, monitors, p, ignored, invert),
    }
}

/// What the whole run computes: the stages in their fixed order, stopping at
/// the first failure.
pub open spec fn pipeline_spec(
    d: Seq<u8>,
    w: int,
    h: int,
    config: PipelineConfig,
    icon: Option<(Seq<u8>, int, int)>,
    monitors: Seq<MonitorDescriptor>,
) -> Result<(Seq<u8>, int, int), PipelineError> {
    match stage_scale_down(d, w, h, config.scale_factor) {
        Err(e) => Err(e),
        Ok(s1) => match stage_blur(s1.0, s1.1, s1.2, config.blur_radius) {
            Err(e) => Err(e),
            Ok(s2) => {
                let s3 = stage_scale_up(s2.0, s2.1, s2.2, config.scale_factor);
                let d4 = stage_brighten(s3.0, config.brighten);
                let d5 = stage_darken(d4, config.darken);
                let d6 = stage_overlay(
                    d5,
                    s3.1,
                    s3.2,
                    icon,
                    monitors,
                    config.placement,
                    config.ignored_monitors@,
                    config.invert,
                );
                Ok((d6, s3.1, s3.2))
            },
        },
    }
}

/// Run every enabled stage on the captured buffer, in the pipeline's fixed
/// order, and return the transformed buffer, or the first stage's error with
/// nothing handed on.
pub fn run_pipeline(
    buffer: PixelBuffer,
    config: &PipelineConfig,
    icon: Option<&OverlayImage>,
    monitors: &Vec<MonitorDescriptor>,
) -> (r: Result<PixelBuffer, PipelineError>)
    requires
        buffer.wf(),
        config.wf(),
        icon matches Some(img) ==> img.wf() && forall|k: int|
            0 <= k < monitors@.len() ==> (#[trigger] monitors@[k]).fits(
                img.width as int,
                img.height as int,
            ),
    ensures
        match r {
            Ok(out) => {
                &&& out.wf()
                &&& pipeline_spec(
                    buffer.data@,
                    buffer.width as int,
                    buffer.height as int,
                    *config,
                    overlay_view(icon),
                    monitors@,
                ) == Ok::<(Seq<u8>, int, int), PipelineError>((
                    out.data@,
                    out.width as int,
                    out.height as int,
                ))
            },
            Err(e) => pipeline_spec(
                buffer.data@,
                buffer.width as int,
                buffer.height as int,
                *config,
                overlay_view(icon),
                monitors@,
            ) == Err::<(Seq<u8>, int, int), PipelineError>(e),
        },
{
    let w0: usize = buffer.width;
    let h0: usize = buffer.height;
    let _orig_len: usize = buffer.data.len();
    let ghost d0 = buffer.data@;
    let mut buf = buffer;

    if let Some(f) = config.scale_factor {
        match scale_down(&buf, f) {
            Ok(nb) => {
                buf = nb;
            },
            Err(e) => {
                return Err(e);
            },
        }
    }
    let ghost d1 = buf.data@;
    let ghost w1 = buf.width as int;
    let ghost h1 = buf.height as int;
    proof {
        assert(stage_scale_down(d0, w0 as int, h0 as int, config.scale_factor)
            == Ok::<(Seq<u8>, int, int), PipelineError>((d1, w1, h1)));
    }

    if let Some(rad) = config.blur_radius {
        match blur(&mut buf, rad) {
            Ok(()) => {},
            Err(e) => {
                return Err(e);
            },
        }
    }
    let ghost d2 = buf.data@;
    proof {
        assert(stage_blur(d1, w1, h1, config.blur_radius)
            == Ok::<(Seq<u8>, int, int), PipelineError>((d2, w1, h1)));
    }

    if let Some(f) = config.scale_factor {
        proof {
            lemma_scale_round_trip_dims(w0 as int, f as int);
            lemma_scale_round_trip_dims(h0 as int, f as int);
            assert((buf.width as int) * (f as int) <= w0 as int);
            assert((buf.height as int) * (f as int) <= h0 as int);
            assert(((buf.width * f) as int) * (((buf.height * f) as int) * 4) <= usize::MAX)
                by (nonlinear_arith)
                requires
                    (buf.width as int) * (f as int) <= w0 as int,
                    (buf.height as int) * (f as int) <= h0 as int,
                    (w0 as int) * (h0 as int) * 4 <= usize::MAX,
                    buf.width >= 0,
                    buf.height >= 0,
                    f >= 1,
                    w0 >= 0,
                    h0 >= 0,
            ;
        }
        buf = scale_up(&buf, f);
    }
    let ghost d3 = buf.data@;
    let ghost w3 = buf.width as int;
    let ghost h3 = buf.height as int;
    proof {
        assert(stage_scale_up(d2, w1, h1, config.scale_factor) == (d3, w3, h3));
    }

    if let Some(b) = config.brighten {
        brighten(&mut buf, b);
    }
    let ghost d4 = buf.data@;
    proof {
        assert(stage_brighten(d3, config.brighten) == d4);
    }

    if let Some(dk) = config.darken {
        darken(&mut buf, dk);
    }
    let ghost d5 = buf.data@;
    proof {
        assert(stage_darken(d4, config.darken) == d5);
    }

    if let Some(img) = icon {
        compose_monitors(&mut buf, img, monitors, &config.placement, &config.ignored_monitors, config.invert);
    }
    let ghost d6 = buf.data@;
    proof {
        assert(stage_overlay(
            d5,
            w3,
            h3,
            overlay_view(icon),
            monitors@,
            config.placement,
            config.ignored_monitors@,
            config.invert,
        ) == d6);
        assert(pipeline_spec(d0, w0 as int, h0 as int, *config, overlay_view(icon), monitors@)
            == Ok::<(Seq<u8>, int, int), PipelineError>((d6, w3, h3)));
    }
    Ok(buf)
}

} // verus!
