//! Forward splat-rasterization core: the discrete, exactly-specified parts of
//! a Gaussian-splat renderer. Screen space is cut into fixed tiles, each
//! projected splat is binned into the tiles its footprint overlaps, the
//! per-tile lists are ordered by depth (ties broken by splat index), and each
//! pixel is composited front to back in fixed-point arithmetic. Oversized
//! workloads are reshaped into a two-dimensional dispatch grid with exact
//! index recovery. Floating-point stages (projection, activations) run in the
//! surrounding application and hand this crate plain integer data.

use vstd::prelude::*;

pub mod binner;
pub mod camera;
pub mod compositor;
pub mod depth_sort;
pub mod dispatch;
pub mod splats;
pub mod tiles;

verus! {

/// Construction-time failures, reported to the caller.
#[derive(Clone, Copy, PartialEq, Eq, Structural, Debug)]
pub enum RenderError {
    /// The requested image has a zero-sized dimension.
    ZeroAreaImage,
    /// The per-splat parameter arrays do not share one leading dimension.
    SplatArrayMismatch,
}

} // verus!
