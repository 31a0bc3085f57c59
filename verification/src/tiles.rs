//! Screen tiling. The image is cut into fixed-size square tiles; a
//! projected splat's footprint (an inclusive pixel rectangle, possibly
//! reaching off screen) is mapped to the exact span of tiles it overlaps.
//! The contracts pin the span down: a tile is inside the span if and only if
//! the footprint, clamped to the screen, meets the tile's pixel rectangle.

use vstd::prelude::*;
use vstd::math::{max, min};

verus! {

/// Side length of one square screen tile, in pixels.
pub const TILE_SIZE: u32 = 16;

/// Number of tiles needed to cover `extent` pixels.
pub open spec fn spec_tile_count(extent: int) -> int {
    (extent + TILE_SIZE - 1) / (TILE_SIZE as int)
}

/// Tile `k` of one axis covers pixels `[k*TILE_SIZE, (k+1)*TILE_SIZE - 1]`;
/// it overlaps the inclusive pixel interval `[lo, hi]` iff the two intervals
/// intersect.
pub open spec fn tile_overlaps_interval(k: int, lo: int, hi: int) -> bool {
    k * TILE_SIZE <= hi && lo < (k + 1) * TILE_SIZE
}

/// The fixed tile decomposition of one image.
#[derive(Clone, Copy, PartialEq, Eq, Structural, Debug)]
pub struct TileGrid {
    pub width: u32,
    pub height: u32,
    pub tiles_x: u32,
    pub tiles_y: u32,
}

impl TileGrid {
    pub open spec fn wf(self) -> bool {
        1 <= self.width && 1 <= self.height && self.tiles_x == spec_tile_count(self.width as int)
            && self.tiles_y == spec_tile_count(self.height as int)
    }

    /// Total number of tiles; one bin per tile.
    pub open spec fn tile_count(self) -> int {
        self.tiles_x * self.tiles_y
    }

    /// Row-major id of tile `(tx, ty)`.
    pub open spec fn tile_id(self, tx: int, ty: int) -> int {
        ty * self.tiles_x + tx
    }
}

/// A tile inside the grid has a row-major id below the tile count.
pub proof fn lemma_tile_id_bounds(g: TileGrid, tx: int, ty: int)
    requires
        0 <= tx < g.tiles_x,
        0 <= ty < g.tiles_y,
    ensures
        0 <= g.tile_id(tx, ty) < g.tile_count(),
{
    assert(0 <= ty * g.tiles_x + tx < g.tiles_x * g.tiles_y) by (nonlinear_arith)
        requires
            0 <= tx < g.tiles_x,
            0 <= ty < g.tiles_y,
    ;
}

/// Number of tiles covering `extent` pixels of one axis.
fn tile_count_axis(extent: u32) -> (n: u32)
    ensures
        n == spec_tile_count(extent as int),
{
    (((extent as u64) + (TILE_SIZE as u64) - 1) / (TILE_SIZE as u64)) as u32
}

/// Lay the tile grid over a requested image. A zero-area image is a
/// construction error; any other size gets the exact covering grid.
pub fn tile_grid(width: u32, height: u32) -> (r: Result<TileGrid, crate::RenderError>)
    ensures
        r is Ok <==> (width > 0 && height > 0),
        r is Err ==> r->Err_0 == crate::RenderError::ZeroAreaImage,
        r is Ok ==> r->Ok_0.wf() && r->Ok_0.width == width && r->Ok_0.height == height,
{
    if width == 0 || height == 0 {
        Err(crate::RenderError::ZeroAreaImage)
    } else {
        Ok(
            TileGrid {
                width,
                height,
                tiles_x: tile_count_axis(width),
                tiles_y: tile_count_axis(height),
            },
        )
    }
}

/// Tile holding an on-screen pixel of one axis.
pub fn tile_of_coord(p: u32) -> (k: u32)
    ensures
        k == p as int / TILE_SIZE as int,
{
    p / TILE_SIZE
}

/// An on-screen pixel's tile lies below the grid's tile count.
pub proof fn lemma_pixel_tile_in_grid(p: int, extent: int)
    requires
        0 <= p < extent,
    ensures
        0 <= p / (TILE_SIZE as int) < spec_tile_count(extent),
{
    let t: int = TILE_SIZE as int;
    vstd::arithmetic::div_mod::lemma_div_pos_is_pos(p, t);
    vstd::arithmetic::div_mod::lemma_div_is_ordered(p, extent - 1, t);
    vstd::arithmetic::div_mod::lemma_fundamental_div_mod(extent - 1, t);
    vstd::arithmetic::div_mod::lemma_fundamental_div_mod_converse(
        extent + t - 1,
        t,
        (extent - 1) / t + 1,
        (extent - 1) % t,
    );
}

/// The tile of a pixel inside `[lo, hi]` overlaps `[lo, hi]`.
pub proof fn lemma_covered_pixel_tile_overlaps(p: int, lo: int, hi: int)
    requires
        0 <= lo <= p <= hi,
    ensures
        tile_overlaps_interval(p / (TILE_SIZE as int), lo, hi),
{
    let t: int = TILE_SIZE as int;
    let k: int = p / t;
    vstd::arithmetic::div_mod::lemma_fundamental_div_mod(p, t);
    vstd::arithmetic::div_mod::lemma_mod_bound(p, t);
    assert(k * t <= p) by (nonlinear_arith)
        requires
            p == t * k + p % t,
            0 <= p % t,
    ;
    assert(p < (k + 1) * t) by (nonlinear_arith)
        requires
            p == t * k + p % t,
            p % t < t,
    ;
}

/// Half-open span of tiles of one axis overlapped by the inclusive pixel
/// interval `[lo, hi]`, which must lie inside the grid's `n_tiles` tiles.
fn tile_range(lo: u32, hi: u32, n_tiles: u32) -> (r: (u32, u32))
    requires
        lo <= hi,
        hi < n_tiles * TILE_SIZE,
    ensures
        r.0 <= r.1 <= n_tiles,
        forall|k: int| r.0 <= k < r.1 <==> #[trigger] tile_overlaps_interval(k, lo as int, hi as int),
{
    let ghost t: int = TILE_SIZE as int;
    let k0: u32 = lo / TILE_SIZE;
    let k1: u32 = hi / TILE_SIZE + 1;
    proof {
        vstd::arithmetic::div_mod::lemma_fundamental_div_mod(lo as int, t);
        vstd::arithmetic::div_mod::lemma_mod_bound(lo as int, t);
        vstd::arithmetic::div_mod::lemma_fundamental_div_mod(hi as int, t);
        vstd::arithmetic::div_mod::lemma_mod_bound(hi as int, t);
        vstd::arithmetic::div_mod::lemma_div_is_ordered(lo as int, hi as int, t);
        // hi < n_tiles * TILE_SIZE bounds the last overlapped tile.
        assert(hi as int / t < n_tiles) by (nonlinear_arith)
            requires
                hi as int == t * (hi as int / t) + hi as int % t,
                0 <= hi as int % t < t,
                hi < n_tiles * TILE_SIZE,
                t == TILE_SIZE as int,
        ;
        assert forall|k: int| k0 <= k < k1 implies #[trigger] tile_overlaps_interval(
            k,
            lo as int,
            hi as int,
        ) by {
            assert(k * t <= hi) by (nonlinear_arith)
                requires
                    k <= hi as int / t,
                    hi as int == t * (hi as int / t) + hi as int % t,
                    0 <= hi as int % t,
                    0 < t,
            ;
            assert(lo < (k + 1) * t) by (nonlinear_arith)
                requires
                    k >= lo as int / t,
                    lo as int == t * (lo as int / t) + lo as int % t,
                    lo as int % t < t,
                    0 < t,
            ;
        }
        assert forall|k: int| #[trigger] tile_overlaps_interval(k, lo as int, hi as int) implies k0
            <= k < k1 by {
            assert(k >= lo as int / t) by (nonlinear_arith)
                requires
                    lo < (k + 1) * t,
                    lo as int == t * (lo as int / t) + lo as int % t,
                    0 <= lo as int % t,
                    0 < t,
            ;
            assert(k <= hi as int / t) by (nonlinear_arith)
                requires
                    k * t <= hi,
                    hi as int == t * (hi as int / t) + hi as int % t,
                    0 <= hi as int % t < t,
                    0 < t,
            ;
        }
    }
    (k0, k1)
}

/// Row-major id of the tile holding the on-screen pixel `(px, py)`; always
/// a valid bin index.
pub fn tile_id_of_pixel(g: &TileGrid, px: u32, py: u32) -> (tid: usize)
    requires
        g.wf(),
        px < g.width,
        py < g.height,
        g.tile_count() <= usize::MAX,
    ensures
        tid == g.tile_id(px as int / TILE_SIZE as int, py as int / TILE_SIZE as int),
        tid < g.tile_count(),
{
    proof {
        lemma_pixel_tile_in_grid(px as int, g.width as int);
        lemma_pixel_tile_in_grid(py as int, g.height as int);
        lemma_tile_id_bounds(
            *g,
            px as int / TILE_SIZE as int,
            py as int / TILE_SIZE as int,
        );
    }
    (tile_of_coord(py) as usize) * (g.tiles_x as usize) + (tile_of_coord(px) as usize)
}

/// Screen-space footprint of one projected splat: inclusive pixel bounds,
/// allowed to reach off screen or be empty.
#[derive(Clone, Copy, PartialEq, Eq, Structural, Debug)]
pub struct PixelRect {
    pub min_x: i64,
    pub min_y: i64,
    pub max_x: i64,
    pub max_y: i64,
}

/// Half-open span of tiles, `x0 <= tx < x1` by `y0 <= ty < y1`.
#[derive(Clone, Copy, PartialEq, Eq, Structural, Debug)]
pub struct TileSpan {
    pub x0: u32,
    pub x1: u32,
    pub y0: u32,
    pub y1: u32,
}

impl TileSpan {
    pub open spec fn contains(self, tx: int, ty: int) -> bool {
        self.x0 <= tx < self.x1 && self.y0 <= ty < self.y1
    }
}

/// Does the footprint, clamped to the screen, meet tile `(tx, ty)`?
pub open spec fn rect_overlaps_tile(g: TileGrid, r: PixelRect, tx: int, ty: int) -> bool {
    let lox = max(r.min_x as int, 0);
    let hix = min(r.max_x as int, g.width as int - 1);
    let loy = max(r.min_y as int, 0);
    let hiy = min(r.max_y as int, g.height as int - 1);
    lox <= hix && loy <= hiy && tile_overlaps_interval(tx, lox, hix) && tile_overlaps_interval(
        ty,
        loy,
        hiy,
    )
}

/// Span of tiles a footprint overlaps: a tile is inside the span exactly
/// when the footprint, clamped to the screen, meets that tile. A footprint
/// off screen or empty gets the empty span.
pub fn tile_span(g: &TileGrid, r: &PixelRect) -> (s: TileSpan)
    requires
        g.wf(),
    ensures
        s.x0 <= s.x1 <= g.tiles_x,
        s.y0 <= s.y1 <= g.tiles_y,
        forall|tx: int, ty: int|
            #[trigger] rect_overlaps_tile(*g, *r, tx, ty) <==> s.contains(tx, ty),
{
    let empty = TileSpan { x0: 0, x1: 0, y0: 0, y1: 0 };
    if r.max_x < 0 || r.max_y < 0 || r.min_x >= g.width as i64 || r.min_y >= g.height as i64
        || r.min_x > r.max_x || r.min_y > r.max_y {
        return empty;
    }
    let lox: u32 = if r.min_x < 0 {
        0
    } else {
        r.min_x as u32
    };
    let hix: u32 = if r.max_x >= g.width as i64 {
        g.width - 1
    } else {
        r.max_x as u32
    };
    let loy: u32 = if r.min_y < 0 {
        0
    } else {
        r.min_y as u32
    };
    let hiy: u32 = if r.max_y >= g.height as i64 {
        g.height - 1
    } else {
        r.max_y as u32
    };
    proof {
        lemma_pixel_tile_in_grid(hix as int, g.width as int);
        lemma_pixel_tile_in_grid(hiy as int, g.height as int);
        vstd::arithmetic::div_mod::lemma_fundamental_div_mod(hix as int, TILE_SIZE as int);
        vstd::arithmetic::div_mod::lemma_mod_bound(hix as int, TILE_SIZE as int);
        vstd::arithmetic::div_mod::lemma_fundamental_div_mod(hiy as int, TILE_SIZE as int);
        vstd::arithmetic::div_mod::lemma_mod_bound(hiy as int, TILE_SIZE as int);
        assert(hix < g.tiles_x * TILE_SIZE) by (nonlinear_arith)
            requires
                hix as int / (TILE_SIZE as int) < g.tiles_x,
                hix as int == (TILE_SIZE as int) * (hix as int / (TILE_SIZE as int)) + hix as int
                    % (TILE_SIZE as int),
                0 <= hix as int % (TILE_SIZE as int) < (TILE_SIZE as int),
        ;
        assert(hiy < g.tiles_y * TILE_SIZE) by (nonlinear_arith)
            requires
                hiy as int / (TILE_SIZE as int) < g.tiles_y,
                hiy as int == (TILE_SIZE as int) * (hiy as int / (TILE_SIZE as int)) + hiy as int
                    % (TILE_SIZE as int),
                0 <= hiy as int % (TILE_SIZE as int) < (TILE_SIZE as int),
        ;
    }
    let (x0, x1) = tile_range(lox, hix, g.tiles_x);
    let (y0, y1) = tile_range(loy, hiy, g.tiles_y);
    TileSpan { x0, x1, y0, y1 }
}

/// A footprint covering an on-screen pixel overlaps that pixel's tile: the
/// binner never loses a splat from a pixel it covers.
pub proof fn lemma_covering_splat_reaches_pixel(g: TileGrid, r: PixelRect, px: int, py: int)
    requires
        g.wf(),
        0 <= px < g.width,
        0 <= py < g.height,
        r.min_x <= px <= r.max_x,
        r.min_y <= py <= r.max_y,
    ensures
        rect_overlaps_tile(g, r, px / (TILE_SIZE as int), py / (TILE_SIZE as int)),
{
    let lox = max(r.min_x as int, 0);
    let hix = min(r.max_x as int, g.width as int - 1);
    let loy = max(r.min_y as int, 0);
    let hiy = min(r.max_y as int, g.height as int - 1);
    lemma_covered_pixel_tile_overlaps(px, lox, hix);
    lemma_covered_pixel_tile_overlaps(py, loy, hiy);
}

} // verus!
