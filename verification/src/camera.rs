//! Field-of-view resolution policy. A render request may give, per axis, a
//! focal length in pixels, an explicit field of view, or nothing. The
//! conversions between the two are transcendental and run in the
//! application; what is decided here, exactly, is which source fixes each
//! axis: a focal length overrides an explicit field of view, and a missing
//! vertical field of view is derived from the horizontal one through its
//! implied focal length, which keeps pixels square by default.

use vstd::prelude::*;

verus! {

/// Where one axis's field of view comes from.
#[derive(Clone, Copy, PartialEq, Eq, Structural, Debug)]
pub enum AxisFovSource {
    /// Convert the given focal length for this axis's pixel dimension.
    Focal,
    /// Take the explicitly given field of view.
    ExplicitFov,
    /// Convert the other axis's resolved field of view to a focal length,
    /// then reapply it over this axis's pixel dimension.
    DerivedFromOtherAxis,
}

/// Decide both axes' sources from which inputs are present. The horizontal
/// axis always has an explicit field of view to fall back on; the vertical
/// axis falls back to deriving from the horizontal.
pub fn resolve_fov_sources(has_focal_x: bool, has_focal_y: bool, has_fov_y: bool) -> (r: (
    AxisFovSource,
    AxisFovSource,
))
    ensures
        r.0 == if has_focal_x {
            AxisFovSource::Focal
        } else {
            AxisFovSource::ExplicitFov
        },
        r.1 == if has_focal_y {
            AxisFovSource::Focal
        } else if has_fov_y {
            AxisFovSource::ExplicitFov
        } else {
            AxisFovSource::DerivedFromOtherAxis
        },
{
    let x = if has_focal_x {
        AxisFovSource::Focal
    } else {
        AxisFovSource::ExplicitFov
    };
    let y = if has_focal_y {
        AxisFovSource::Focal
    } else if has_fov_y {
        AxisFovSource::ExplicitFov
    } else {
        AxisFovSource::DerivedFromOtherAxis
    };
    (x, y)
}

} // verus!
