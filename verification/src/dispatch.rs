//! Dispatch shaping: an oversized uniform workload is decomposed into a
//! bounded two-dimensional execution grid, and each lane recovers its flat
//! work-item index from its grid coordinates. The lemmas here show the
//! reshaping is transparent: whatever grid shape is chosen, the lanes whose
//! recovered index lies below the workload size enumerate exactly the indices
//! `0 .. total`, each once.

use vstd::prelude::*;

verus! {

/// Practical ceiling on the work items of a one-dimensional dispatch; a
/// workload beyond it is reshaped into two dimensions.
pub const MAX_DISPATCH_1D: u64 = 16777216;

/// Shape of the execution grid submitted for one stage: `x * y` lanes.
#[derive(Clone, Copy, PartialEq, Eq, Structural, Debug)]
pub struct DispatchGrid {
    pub x: u64,
    pub y: u64,
}

/// Flat work-item index recovered by the lane at `(gx, gy)` of a grid of
/// width `width`.
pub open spec fn flat_index(gx: int, gy: int, width: int) -> int {
    gy * width + gx
}

impl DispatchGrid {
    /// Number of lanes the grid launches.
    pub open spec fn lanes(self) -> int {
        self.x * self.y
    }

    /// The grid has a lane for every work item of a workload of size `total`.
    pub open spec fn covers(self, total: int) -> bool {
        self.lanes() >= total
    }
}

/// Shape `total` work items into an execution grid whose x extent stays
/// within `max_x`. Below the ceiling the grid is the one-dimensional
/// dispatch itself; above it, a two-dimensional grid of full rows plus one
/// partial row, so fewer than one row of lanes is wasted.
pub fn grid_for(total: u64, max_x: u64) -> (g: DispatchGrid)
    requires
        1 <= max_x < 4294967296,
        total <= max_x * max_x,
    ensures
        g.x <= max_x,
        g.y <= max_x,
        g.covers(total as int),
        total > 0 ==> g.lanes() < total + g.x,
        total == 0 ==> g.lanes() == 0,
        total <= max_x ==> g == (DispatchGrid { x: total, y: 1 }),
        total > 0 ==> 1 <= g.x && 1 <= g.y,
{
    if total <= max_x {
        DispatchGrid { x: total, y: 1 }
    } else {
        let q: u64 = total / max_x;
        let r: u64 = total % max_x;
        proof {
            vstd::arithmetic::div_mod::lemma_fundamental_div_mod(total as int, max_x as int);
            vstd::arithmetic::div_mod::lemma_mod_bound(total as int, max_x as int);
            if r == 0 {
                assert(1 <= q && q <= max_x && total == max_x * q) by (nonlinear_arith)
                    requires
                        total == max_x * q + r,
                        r == 0,
                        1 <= max_x,
                        max_x < total,
                        total <= max_x * max_x,
                ;
            } else {
                assert(1 <= q + 1 && q + 1 <= max_x && total <= max_x * (q + 1) && max_x * (q
                    + 1) < total + max_x) by (nonlinear_arith)
                    requires
                        total == max_x * q + r,
                        0 < r < max_x,
                        1 <= max_x,
                        total <= max_x * max_x,
                ;
            }
        }
        let y: u64 = if r == 0 { q } else { q + 1 };
        DispatchGrid { x: max_x, y }
    }
}

/// Flat index of the lane at `(gx, gy)` in a grid of width `width`.
pub fn lane_index(gx: u64, gy: u64, width: u64) -> (i: u64)
    requires
        gx < width,
        flat_index(gx as int, gy as int, width as int) <= u64::MAX,
    ensures
        i == flat_index(gx as int, gy as int, width as int),
{
    gy * width + gx
}

/// Grid coordinates of the lane that recovers flat index `i`.
pub fn lane_coords(i: u64, width: u64) -> (c: (u64, u64))
    requires
        1 <= width,
    ensures
        c.0 < width,
        flat_index(c.0 as int, c.1 as int, width as int) == i,
{
    proof {
        vstd::arithmetic::div_mod::lemma_fundamental_div_mod(i as int, width as int);
        vstd::arithmetic::div_mod::lemma_mod_bound(i as int, width as int);
        assert((i as int / width as int) * width as int + i as int % width as int == i as int)
            by (nonlinear_arith)
            requires
                i as int == width as int * (i as int / width as int) + i as int % width as int,
        ;
    }
    (i % width, i / width)
}

/// Distinct lanes of one grid recover distinct flat indices.
pub proof fn lemma_flat_index_injective(width: int, gx1: int, gy1: int, gx2: int, gy2: int)
    requires
        1 <= width,
        0 <= gx1 < width,
        0 <= gx2 < width,
        0 <= gy1,
        0 <= gy2,
        flat_index(gx1, gy1, width) == flat_index(gx2, gy2, width),
    ensures
        gx1 == gx2,
        gy1 == gy2,
{
    assert(gy1 == gy2 && gx1 == gx2) by (nonlinear_arith)
        requires
            1 <= width,
            0 <= gx1 < width,
            0 <= gx2 < width,
            0 <= gy1,
            0 <= gy2,
            gy1 * width + gx1 == gy2 * width + gx2,
    ;
}

/// Dispatch-shape transparency: in any grid that covers the workload, every
/// work item `id` below `total` is recovered by exactly one lane. A stage
/// run as one flat row and the same stage run reshaped therefore process the
/// same set of work items, each once.
pub proof fn lemma_dispatch_shape_transparent(g: DispatchGrid, total: int, id: int)
    requires
        1 <= g.x,
        0 <= g.y,
        g.covers(total),
        0 <= id < total,
    ensures
        exists|gx: int, gy: int|
            0 <= gx < g.x && 0 <= gy < g.y && #[trigger] flat_index(gx, gy, g.x as int) == id,
        forall|gx1: int, gy1: int, gx2: int, gy2: int|
            0 <= gx1 < g.x && 0 <= gy1 && 0 <= gx2 < g.x && 0 <= gy2
                && #[trigger] flat_index(gx1, gy1, g.x as int)
                    == #[trigger] flat_index(gx2, gy2, g.x as int) ==> gx1 == gx2 && gy1 == gy2,
{
    let w: int = g.x as int;
    let gx: int = id % w;
    let gy: int = id / w;
    vstd::arithmetic::div_mod::lemma_fundamental_div_mod(id, w);
    assert(0 <= gx < w && 0 <= gy) by {
        vstd::arithmetic::div_mod::lemma_mod_bound(id, w);
        vstd::arithmetic::div_mod::lemma_div_pos_is_pos(id, w);
    }
    assert(gy < g.y) by (nonlinear_arith)
        requires
            id == w * gy + gx,
            0 <= gx < w,
            1 <= w,
            0 <= gy,
            id < total,
            total <= w * g.y,
    ;
    assert(flat_index(gx, gy, w) == id);
    assert forall|gx1: int, gy1: int, gx2: int, gy2: int|
        0 <= gx1 < g.x && 0 <= gy1 && 0 <= gx2 < g.x && 0 <= gy2
            && #[trigger] flat_index(gx1, gy1, g.x as int)
                == #[trigger] flat_index(gx2, gy2, g.x as int) implies gx1 == gx2
        && gy1 == gy2 by {
        lemma_flat_index_injective(w, gx1, gy1, gx2, gy2);
    }
}

} // verus!
