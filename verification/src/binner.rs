//! Tile binning. Every surviving projected splat is associated with each
//! tile its footprint overlaps; a splat may stand in several tiles. The
//! binner's contract pins each tile's list down exactly: it is the sequence
//! of keys of the overlapping splats, in splat order, and after sorting it
//! is the unique depth-ascending arrangement of those keys.

use vstd::prelude::*;
use crate::tiles::{TileGrid, PixelRect, TileSpan, rect_overlaps_tile, tile_span, lemma_tile_id_bounds};
use crate::depth_sort::{spec_bin_key, bin_key, sorted, sort_keys, KEY_RADIX};
use crate::dispatch::lemma_flat_index_injective;

verus! {

/// What the binner reads of one projected, surviving splat: its screen
/// footprint and its depth key, a monotone integer encoding of camera depth
/// produced upstream, smaller meaning nearer.
#[derive(Clone, Copy, PartialEq, Eq, Structural, Debug)]
pub struct ProjectedSplat {
    pub rect: PixelRect,
    pub depth: u32,
}

/// Keys of the splats among the first `n` whose footprint overlaps tile
/// `(tx, ty)`, in splat order.
pub open spec fn spec_tile_keys(
    g: TileGrid,
    ps: Seq<ProjectedSplat>,
    tx: int,
    ty: int,
    n: int,
) -> Seq<u64>
    decreases n,
{
    if n <= 0 {
        Seq::empty()
    } else if rect_overlaps_tile(g, ps[n - 1].rect, tx, ty) {
        spec_tile_keys(g, ps, tx, ty, n - 1).push(
            spec_bin_key(ps[n - 1].depth as int, n - 1) as u64,
        )
    } else {
        spec_tile_keys(g, ps, tx, ty, n - 1)
    }
}

/// The first `n` splats' keys all carry an index half below `n`: the key of
/// a later splat cannot stand in their tile lists.
proof fn lemma_tile_keys_no_future(
    g: TileGrid,
    ps: Seq<ProjectedSplat>,
    tx: int,
    ty: int,
    n: int,
    j: int,
)
    requires
        0 <= n <= j < ps.len(),
        ps.len() < KEY_RADIX,
    ensures
        !spec_tile_keys(g, ps, tx, ty, n).contains(spec_bin_key(ps[j].depth as int, j) as u64),
    decreases n,
{
    let key_j = spec_bin_key(ps[j].depth as int, j) as u64;
    if n > 0 {
        lemma_tile_keys_no_future(g, ps, tx, ty, n - 1, j);
        let prev = spec_tile_keys(g, ps, tx, ty, n - 1);
        if rect_overlaps_tile(g, ps[n - 1].rect, tx, ty) {
            let key_n = spec_bin_key(ps[n - 1].depth as int, n - 1) as u64;
            vstd::seq_lib::lemma_seq_contains_after_push(prev, key_n, key_j);
            lemma_bin_keys_distinct(ps[n - 1].depth as int, n - 1, ps[j].depth as int, j);
        }
    } else {
        assert(!Seq::<u64>::empty().contains(key_j));
    }
}

/// Distinct splat indices give distinct keys, seen as 64-bit values.
proof fn lemma_bin_keys_distinct(d1: int, j1: int, d2: int, j2: int)
    requires
        0 <= d1 < KEY_RADIX,
        0 <= d2 < KEY_RADIX,
        0 <= j1 < KEY_RADIX,
        0 <= j2 < KEY_RADIX,
        j1 != j2,
    ensures
        spec_bin_key(d1, j1) as u64 != spec_bin_key(d2, j2) as u64,
{
    crate::depth_sort::lemma_key_order(d1, j1, d2, j2);
    assert(0 <= spec_bin_key(d1, j1) < 0x1_0000_0000_0000_0000 && 0 <= spec_bin_key(d2, j2)
        < 0x1_0000_0000_0000_0000) by (nonlinear_arith)
        requires
            0 <= d1 < KEY_RADIX,
            0 <= d2 < KEY_RADIX,
            0 <= j1 < KEY_RADIX,
            0 <= j2 < KEY_RADIX,
    ;
}

/// Membership law of the binner: among the first `n` splats, splat `j`'s
/// key stands in tile `(tx, ty)`'s list exactly when its footprint overlaps
/// that tile.
pub proof fn lemma_tile_keys_membership(
    g: TileGrid,
    ps: Seq<ProjectedSplat>,
    tx: int,
    ty: int,
    n: int,
    j: int,
)
    requires
        0 <= j < n <= ps.len(),
        ps.len() < KEY_RADIX,
    ensures
        spec_tile_keys(g, ps, tx, ty, n).contains(spec_bin_key(ps[j].depth as int, j) as u64)
            <==> rect_overlaps_tile(g, ps[j].rect, tx, ty),
    decreases n,
{
    let key_j = spec_bin_key(ps[j].depth as int, j) as u64;
    let prev = spec_tile_keys(g, ps, tx, ty, n - 1);
    if j == n - 1 {
        if rect_overlaps_tile(g, ps[j].rect, tx, ty) {
            assert(spec_tile_keys(g, ps, tx, ty, n) == prev.push(key_j));
            assert(prev.push(key_j)[prev.len() as int] == key_j);
            assert(prev.push(key_j).contains(key_j));
        } else {
            lemma_tile_keys_no_future(g, ps, tx, ty, n - 1, j);
        }
    } else {
        lemma_tile_keys_membership(g, ps, tx, ty, n - 1, j);
        if rect_overlaps_tile(g, ps[n - 1].rect, tx, ty) {
            let key_n = spec_bin_key(ps[n - 1].depth as int, n - 1) as u64;
            vstd::seq_lib::lemma_seq_contains_after_push(prev, key_n, key_j);
            lemma_bin_keys_distinct(ps[n - 1].depth as int, n - 1, ps[j].depth as int, j);
        }
    }
}

/// End to end: when splat `j`'s footprint covers an on-screen pixel, the
/// pixel's own tile list holds splat `j`'s key — the per-pixel walk misses
/// no splat that covers the pixel.
pub proof fn lemma_pixel_sees_covering_splat(
    g: TileGrid,
    ps: Seq<ProjectedSplat>,
    px: int,
    py: int,
    j: int,
)
    requires
        g.wf(),
        0 <= px < g.width,
        0 <= py < g.height,
        0 <= j < ps.len() < KEY_RADIX,
        ps[j].rect.min_x <= px <= ps[j].rect.max_x,
        ps[j].rect.min_y <= py <= ps[j].rect.max_y,
    ensures
        spec_tile_keys(
            g,
            ps,
            px / (crate::tiles::TILE_SIZE as int),
            py / (crate::tiles::TILE_SIZE as int),
            ps.len() as int,
        ).contains(spec_bin_key(ps[j].depth as int, j) as u64),
{
    crate::tiles::lemma_covering_splat_reaches_pixel(g, ps[j].rect, px, py);
    lemma_tile_keys_membership(
        g,
        ps,
        px / (crate::tiles::TILE_SIZE as int),
        py / (crate::tiles::TILE_SIZE as int),
        ps.len() as int,
        j,
    );
}

/// Bin every splat into the tiles its footprint overlaps. Bin `ty *
/// tiles_x + tx` afterwards holds exactly the keys of the splats
/// overlapping tile `(tx, ty)`, in splat order.
pub fn bin_splats(g: &TileGrid, ps: &Vec<ProjectedSplat>) -> (bins: Vec<Vec<u64>>)
    requires
        g.wf(),
        ps@.len() < KEY_RADIX,
        g.tile_count() <= usize::MAX,
    ensures
        bins@.len() == g.tile_count(),
        forall|tx: int, ty: int|
            0 <= tx < g.tiles_x && 0 <= ty < g.tiles_y ==> (#[trigger] bins@[g.tile_id(
                tx,
                ty,
            )])@ == spec_tile_keys(*g, ps@, tx, ty, ps@.len() as int),
{
    let tc: usize = (g.tiles_x as usize) * (g.tiles_y as usize);
    let mut bins: Vec<Vec<u64>> = Vec::new();
    while bins.len() < tc
        invariant
            tc == g.tile_count(),
            bins@.len() <= tc,
            forall|t: int| 0 <= t < bins@.len() ==> (#[trigger] bins@[t])@ == Seq::<u64>::empty(),
        decreases tc - bins@.len(),
    {
        bins.push(Vec::new());
    }
    proof {
        assert forall|tx: int, ty: int|
            0 <= tx < g.tiles_x && 0 <= ty < g.tiles_y implies (#[trigger] bins@[g.tile_id(
            tx,
            ty,
        )])@ == spec_tile_keys(*g, ps@, tx, ty, 0) by {
            lemma_tile_id_bounds(*g, tx, ty);
        }
    }
    let n: usize = ps.len();
    let mut i: usize = 0;
    while i < n
        invariant
            g.wf(),
            n == ps@.len() < KEY_RADIX,
            i <= n,
            tc == g.tile_count() <= usize::MAX,
            bins@.len() == tc,
            forall|tx: int, ty: int|
                0 <= tx < g.tiles_x && 0 <= ty < g.tiles_y ==> (#[trigger] bins@[g.tile_id(
                    tx,
                    ty,
                )])@ == spec_tile_keys(*g, ps@, tx, ty, i as int),
        decreases n - i,
    {
        let p: ProjectedSplat = ps[i];
        let key: u64 = bin_key(p.depth, i as u32);
        let s: TileSpan = tile_span(g, &p.rect);
        let ghost base = bins@;
        let mut ty: u32 = s.y0;
        while ty < s.y1
            invariant
                g.wf(),
                s.x0 <= s.x1 <= g.tiles_x,
                s.y0 <= ty <= s.y1 <= g.tiles_y,
                tc == g.tile_count() <= usize::MAX,
                bins@.len() == tc,
                base.len() == tc,
                forall|ax: int, ay: int|
                    0 <= ax < g.tiles_x && 0 <= ay < g.tiles_y ==> (#[trigger] bins@[g.tile_id(
                        ax,
                        ay,
                    )])@ == (if s.contains(ax, ay) && ay < ty {
                        base[g.tile_id(ax, ay)]@.push(key)
                    } else {
                        base[g.tile_id(ax, ay)]@
                    }),
            decreases s.y1 - ty,
        {
            let mut tx: u32 = s.x0;
            while tx < s.x1
                invariant
                    g.wf(),
                    s.x0 <= tx <= s.x1 <= g.tiles_x,
                    s.y0 <= ty < s.y1 <= g.tiles_y,
                    tc == g.tile_count() <= usize::MAX,
                    bins@.len() == tc,
                    base.len() == tc,
                    forall|ax: int, ay: int|
                        0 <= ax < g.tiles_x && 0 <= ay < g.tiles_y ==> (#[trigger] bins@[g.tile_id(
                            ax,
                            ay,
                        )])@ == (if s.contains(ax, ay) && (ay < ty || (ay == ty && ax < tx)) {
                            base[g.tile_id(ax, ay)]@.push(key)
                        } else {
                            base[g.tile_id(ax, ay)]@
                        }),
                decreases s.x1 - tx,
            {
                proof {
                    lemma_tile_id_bounds(*g, tx as int, ty as int);
                }
                let tid: usize = (ty as usize) * (g.tiles_x as usize) + (tx as usize);
                let ghost prev = bins@;
                bins[tid].push(key);
                proof {
                    assert forall|ax: int, ay: int|
                        0 <= ax < g.tiles_x && 0 <= ay < g.tiles_y implies (#[trigger] bins@[g.tile_id(
                        ax,
                        ay,
                    )])@ == (if s.contains(ax, ay) && (ay < ty || (ay == ty && ax < tx + 1)) {
                        base[g.tile_id(ax, ay)]@.push(key)
                    } else {
                        base[g.tile_id(ax, ay)]@
                    }) by {
                        lemma_tile_id_bounds(*g, ax, ay);
                        if ax == tx && ay == ty {
                            assert(g.tile_id(ax, ay) == tid);
                            assert(s.contains(ax, ay));
                            assert(bins@[tid as int]@ == prev[tid as int]@.push(key));
                        } else {
                            if g.tile_id(ax, ay) == tid {
                                lemma_flat_index_injective(
                                    g.tiles_x as int,
                                    ax,
                                    ay,
                                    tx as int,
                                    ty as int,
                                );
                            }
                            assert(g.tile_id(ax, ay) != tid);
                            assert(bins@[g.tile_id(ax, ay)] == prev[g.tile_id(ax, ay)]);
                        }
                    }
                }
                tx = tx + 1;
            }
            proof {
                assert forall|ax: int, ay: int|
                    0 <= ax < g.tiles_x && 0 <= ay < g.tiles_y implies (#[trigger] bins@[g.tile_id(
                    ax,
                    ay,
                )])@ == (if s.contains(ax, ay) && ay < ty + 1 {
                    base[g.tile_id(ax, ay)]@.push(key)
                } else {
                    base[g.tile_id(ax, ay)]@
                }) by {
                    lemma_tile_id_bounds(*g, ax, ay);
                    assert(s.contains(ax, ay) && ay == ty ==> ax < s.x1);
                }
            }
            ty = ty + 1;
        }
        proof {
            assert forall|ax: int, ay: int|
                0 <= ax < g.tiles_x && 0 <= ay < g.tiles_y implies (#[trigger] bins@[g.tile_id(
                ax,
                ay,
            )])@ == spec_tile_keys(*g, ps@, ax, ay, i + 1) by {
                lemma_tile_id_bounds(*g, ax, ay);
                assert(rect_overlaps_tile(*g, p.rect, ax, ay) <==> s.contains(ax, ay));
                assert(s.contains(ax, ay) ==> ay < s.y1);
                assert(ps@[i as int] == p);
                assert(spec_bin_key(p.depth as int, i as int) < 0x1_0000_0000_0000_0000)
                    by (nonlinear_arith)
                    requires
                        0 <= p.depth < KEY_RADIX,
                        0 <= i < KEY_RADIX,
                ;
                assert(key == spec_bin_key(p.depth as int, i as int) as u64);
            }
        }
        i = i + 1;
    }
    bins
}

/// Bin every splat, then order each tile's list by ascending depth with
/// ties broken by ascending splat index. Each bin afterwards holds exactly
/// the keys of the splats overlapping its tile, in the unique ascending
/// arrangement.
pub fn bin_and_sort(g: &TileGrid, ps: &Vec<ProjectedSplat>) -> (bins: Vec<Vec<u64>>)
    requires
        g.wf(),
        ps@.len() < KEY_RADIX,
        g.tile_count() <= usize::MAX,
    ensures
        bins@.len() == g.tile_count(),
        forall|tx: int, ty: int|
            0 <= tx < g.tiles_x && 0 <= ty < g.tiles_y ==> sorted(
                (#[trigger] bins@[g.tile_id(tx, ty)])@,
            ) && bins@[g.tile_id(tx, ty)]@.to_multiset() == spec_tile_keys(
                *g,
                ps@,
                tx,
                ty,
                ps@.len() as int,
            ).to_multiset(),
{
    let mut bins: Vec<Vec<u64>> = bin_splats(g, ps);
    let ghost binned = bins@;
    let tc: usize = bins.len();
    let mut t: usize = 0;
    while t < tc
        invariant
            tc == bins@.len(),
            tc == binned.len(),
            t <= tc,
            forall|u: int|
                0 <= u < tc ==> (#[trigger] bins@[u])@.to_multiset() == binned[u]@.to_multiset(),
            forall|u: int| 0 <= u < t ==> sorted((#[trigger] bins@[u])@),
        decreases tc - t,
    {
        let ghost prev = bins@;
        sort_keys(&mut bins[t]);
        proof {
            assert forall|u: int|
                0 <= u < tc implies (#[trigger] bins@[u])@.to_multiset()
                == binned[u]@.to_multiset() by {
                if u != t {
                    assert(bins@[u] == prev[u]);
                }
            }
            assert forall|u: int| 0 <= u < t + 1 implies sorted((#[trigger] bins@[u])@) by {
                if u != t {
                    assert(bins@[u] == prev[u]);
                }
            }
        }
        t = t + 1;
    }
    proof {
        assert forall|tx: int, ty: int|
            0 <= tx < g.tiles_x && 0 <= ty < g.tiles_y implies sorted(
            (#[trigger] bins@[g.tile_id(tx, ty)])@,
        ) && bins@[g.tile_id(tx, ty)]@.to_multiset() == spec_tile_keys(
            *g,
            ps@,
            tx,
            ty,
            ps@.len() as int,
        ).to_multiset() by {
            lemma_tile_id_bounds(*g, tx, ty);
        }
    }
    bins
}

} // verus!
