use brush_render::RenderError;
use brush_render::binner::{ProjectedSplat, bin_and_sort, bin_splats};
use brush_render::camera::{AxisFovSource, resolve_fov_sources};
use brush_render::compositor::{
    ONE_Q, Contribution, Rgb, composite_image, composite_pixel, composite_pixel_aux,
};
use brush_render::depth_sort::{bin_key, key_depth, key_splat, sort_keys};
use brush_render::dispatch::{MAX_DISPATCH_1D, grid_for, lane_coords, lane_index};
use brush_render::splats::{RenderMode, SplatStore};
use brush_render::tiles::{PixelRect, tile_grid, tile_id_of_pixel, tile_of_coord, tile_span};

fn contribution(alpha: u32, red: u32, green: u32, blue: u32) -> Contribution {
    Contribution { alpha, red, green, blue }
}

#[test]
fn small_workload_stays_one_dimensional() {
    let g = grid_for(1000, MAX_DISPATCH_1D);
    assert_eq!(g.x, 1000);
    assert_eq!(g.y, 1);
}

#[test]
fn oversized_workload_reshapes_to_two_dimensions() {
    // Thirty million work items exceed the one-dimensional ceiling.
    let total: u64 = 30_000_000;
    let g = grid_for(total, MAX_DISPATCH_1D);
    assert_eq!(g.x, MAX_DISPATCH_1D);
    assert_eq!(g.y, 2);
    assert!(g.x * g.y >= total);
    assert!(g.x * g.y < total + g.x);
}

#[test]
fn lane_index_recovery_roundtrips() {
    let g = grid_for(30_000_000, MAX_DISPATCH_1D);
    for id in [0u64, 1, 12_345, 16_777_215, 16_777_216, 29_999_999] {
        let (gx, gy) = lane_coords(id, g.x);
        assert!(gx < g.x);
        assert!(gy < g.y);
        assert_eq!(lane_index(gx, gy, g.x), id);
    }
}

#[test]
fn dispatch_shape_does_not_change_what_is_rendered() {
    // The same pixel workload walked as one flat row and walked through a
    // reshaped two-dimensional grid composites identically.
    let bg = Rgb { red: 100, green: 200, blue: 300 };
    let total: u64 = 30;
    let pixel_lists: Vec<Vec<Contribution>> = (0..total)
        .map(|p| vec![contribution((p as u32 * 997) % ONE_Q, ONE_Q / 2, ONE_Q / 3, ONE_Q / 5)])
        .collect();

    let flat = grid_for(total, 64);
    assert_eq!((flat.x, flat.y), (30, 1));
    let reshaped = grid_for(total, 7);
    assert_eq!(reshaped.x, 7);
    let mut out_flat = vec![None; total as usize];
    for gx in 0..flat.x {
        let id = lane_index(gx, 0, flat.x);
        out_flat[id as usize] = Some(composite_pixel(&pixel_lists[id as usize], bg));
    }
    let mut out_reshaped = vec![None; total as usize];
    for gy in 0..reshaped.y {
        for gx in 0..reshaped.x {
            let id = lane_index(gx, gy, reshaped.x);
            if id < total {
                out_reshaped[id as usize] = Some(composite_pixel(&pixel_lists[id as usize], bg));
            }
        }
    }
    assert_eq!(out_flat, out_reshaped);
    assert!(out_flat.iter().all(|o| o.is_some()));
}

#[test]
fn reshaped_grid_enumerates_every_work_item_once() {
    // Just past the one-dimensional ceiling, the two-dimensional grid's
    // lanes recover every flat index below the workload size exactly once.
    let total: u64 = MAX_DISPATCH_1D + 2;
    let g = grid_for(total, MAX_DISPATCH_1D);
    assert_eq!(g.y, 2);
    let mut count: u64 = 0;
    let mut sum: u64 = 0;
    for gy in 0..g.y {
        for gx in 0..g.x {
            let id = lane_index(gx, gy, g.x);
            if id < total {
                count += 1;
                sum += id;
            }
        }
    }
    assert_eq!(count, total);
    assert_eq!(sum, total * (total - 1) / 2);
}

#[test]
fn whole_image_composites_pixelwise() {
    let bg = Rgb { red: 1, green: 2, blue: 3 };
    let pixel_lists = vec![
        vec![],
        vec![contribution(ONE_Q, ONE_Q, 0, 0)],
        vec![contribution(0, ONE_Q, ONE_Q, ONE_Q)],
    ];
    let out = composite_image(&pixel_lists, bg);
    assert_eq!(out.len(), 3);
    for (p, list) in pixel_lists.iter().enumerate() {
        assert_eq!(out[p], composite_pixel(list, bg));
    }
    assert_eq!(out[0].red, 1);
    assert_eq!(out[0].alpha, 0);
    assert_eq!(out[1].red, ONE_Q);
    assert_eq!(out[1].alpha, ONE_Q);
}

#[test]
fn zero_area_image_is_rejected() {
    assert_eq!(tile_grid(0, 32).unwrap_err(), RenderError::ZeroAreaImage);
    assert_eq!(tile_grid(32, 0).unwrap_err(), RenderError::ZeroAreaImage);
}

#[test]
fn tile_grid_covers_image() {
    let g = tile_grid(32, 32).unwrap();
    assert_eq!((g.tiles_x, g.tiles_y), (2, 2));
    let g = tile_grid(33, 16).unwrap();
    assert_eq!((g.tiles_x, g.tiles_y), (3, 1));
    let g = tile_grid(1, 1).unwrap();
    assert_eq!((g.tiles_x, g.tiles_y), (1, 1));
    assert_eq!(tile_of_coord(15), 0);
    assert_eq!(tile_of_coord(16), 1);
    let g = tile_grid(40, 40).unwrap();
    assert_eq!(tile_id_of_pixel(&g, 0, 0), 0);
    assert_eq!(tile_id_of_pixel(&g, 17, 0), 1);
    assert_eq!(tile_id_of_pixel(&g, 3, 16), 3);
    assert_eq!(tile_id_of_pixel(&g, 39, 39), 8);
}

#[test]
fn footprint_maps_to_overlapped_tiles() {
    let g = tile_grid(64, 64).unwrap();
    // A footprint reaching from pixel 8 to pixel 17 in x touches tiles 0 and 1.
    let s = tile_span(&g, &PixelRect { min_x: 8, min_y: 0, max_x: 17, max_y: 3 });
    assert_eq!((s.x0, s.x1, s.y0, s.y1), (0, 2, 0, 1));
    // Off-screen parts clamp; a footprint fully off screen touches nothing.
    let s = tile_span(&g, &PixelRect { min_x: -100, min_y: -100, max_x: 2, max_y: 2 });
    assert_eq!((s.x0, s.x1, s.y0, s.y1), (0, 1, 0, 1));
    let s = tile_span(&g, &PixelRect { min_x: -100, min_y: -100, max_x: -1, max_y: -1 });
    assert_eq!((s.x0, s.x1), (0, 0));
    let s = tile_span(&g, &PixelRect { min_x: 64, min_y: 0, max_x: 80, max_y: 3 });
    assert_eq!((s.x0, s.x1), (0, 0));
}

#[test]
fn keys_order_by_depth_then_index() {
    // Nearer depth sorts first regardless of index.
    assert!(bin_key(1, 5) < bin_key(2, 0));
    // Equal depths break ties by splat index, ascending.
    assert!(bin_key(2, 1) < bin_key(2, 7));
    let k = bin_key(77, 12);
    assert_eq!(key_depth(k), 77);
    assert_eq!(key_splat(k), 12);
}

#[test]
fn sorting_keys_is_ascending_and_deterministic() {
    let mut v = vec![bin_key(3, 0), bin_key(1, 2), bin_key(1, 1), bin_key(2, 9)];
    sort_keys(&mut v);
    assert_eq!(v, vec![bin_key(1, 1), bin_key(1, 2), bin_key(2, 9), bin_key(3, 0)]);
    // Re-running on the result changes nothing.
    let before = v.clone();
    sort_keys(&mut v);
    assert_eq!(v, before);
}

#[test]
fn zero_alpha_contributions_leave_background() {
    let bg = Rgb { red: 12_345, green: 0, blue: ONE_Q };
    let contribs = vec![contribution(0, ONE_Q, ONE_Q, ONE_Q); 8];
    let out = composite_pixel(&contribs, bg);
    assert_eq!(out.red, 12_345);
    assert_eq!(out.green, 0);
    assert_eq!(out.blue, ONE_Q);
    assert_eq!(out.alpha, 0);
}

#[test]
fn zero_opacity_splats_render_to_zero_background() {
    // Eight zero-opacity splats over a 32 by 32 image on a black background:
    // every pixel stays black with zero alpha.
    let bg = Rgb { red: 0, green: 0, blue: 0 };
    let contribs = vec![contribution(0, ONE_Q / 2, ONE_Q / 3, ONE_Q / 4); 8];
    let mut sum: u64 = 0;
    for _py in 0..32u32 {
        for _px in 0..32u32 {
            let out = composite_pixel(&contribs, bg);
            sum += (out.red + out.green + out.blue + out.alpha) as u64;
        }
    }
    assert_eq!(sum, 0);
}

#[test]
fn composited_channels_stay_in_range() {
    let bg = Rgb { red: ONE_Q, green: ONE_Q, blue: 0 };
    let contribs = vec![
        contribution(ONE_Q, ONE_Q, ONE_Q, ONE_Q),
        contribution(ONE_Q / 2, ONE_Q, 0, ONE_Q),
        contribution(1, 17, ONE_Q, 900),
        contribution(ONE_Q - 1, ONE_Q - 1, 1, ONE_Q / 7),
    ];
    let out = composite_pixel(&contribs, bg);
    assert!(out.red <= ONE_Q);
    assert!(out.green <= ONE_Q);
    assert!(out.blue <= ONE_Q);
    assert!(out.alpha <= ONE_Q);
}

#[test]
fn near_opaque_splat_dominates_red_background() {
    // One splat on the axis, alpha activated to near one, white color, over
    // a pure red background: alpha lands near one and the pixel's color is
    // the splat's, not the background's.
    let bg = Rgb { red: ONE_Q, green: 0, blue: 0 };
    let contribs = vec![contribution(ONE_Q - 1, ONE_Q, ONE_Q, ONE_Q)];
    let out = composite_pixel(&contribs, bg);
    assert!(out.alpha >= ONE_Q - 1);
    assert!(out.green >= ONE_Q - 1);
    assert!(out.blue >= ONE_Q - 1);
    // The background's red contributes at most the remaining transmittance.
    assert!(out.red <= ONE_Q);
    assert!(out.red >= ONE_Q - 2);
}

#[test]
fn half_alpha_splits_color_with_background() {
    // One red splat at alpha one half over a green background: the splat
    // takes half the weight, the background keeps the other half, exactly.
    let bg = Rgb { red: 0, green: ONE_Q, blue: 0 };
    let out = composite_pixel(&vec![contribution(ONE_Q / 2, ONE_Q, 0, 0)], bg);
    assert_eq!(out.red, ONE_Q / 2);
    assert_eq!(out.green, ONE_Q / 2);
    assert_eq!(out.blue, 0);
    assert_eq!(out.alpha, ONE_Q / 2);
}

#[test]
fn saturated_pixel_ignores_everything_behind() {
    let bg = Rgb { red: 5, green: 6, blue: 7 };
    let front = contribution(ONE_Q, ONE_Q / 2, ONE_Q / 5, ONE_Q / 9);
    let shown = composite_pixel(&vec![front], bg);
    let hidden = composite_pixel(
        &vec![front, contribution(ONE_Q, ONE_Q, ONE_Q, ONE_Q), contribution(123, 456, 789, 11)],
        bg,
    );
    assert_eq!(shown, hidden);
}

#[test]
fn auxiliary_reports_hits_and_transmittance() {
    let bg = Rgb { red: 0, green: 0, blue: 0 };
    // A fully opaque front splat saturates the pixel: one hit, nothing left.
    let (out, aux) = composite_pixel_aux(
        &vec![
            contribution(ONE_Q, ONE_Q, 0, 0),
            contribution(ONE_Q / 2, 0, ONE_Q, 0),
            contribution(ONE_Q / 3, 0, 0, ONE_Q),
        ],
        bg,
    );
    assert_eq!(aux.hits, 1);
    assert_eq!(aux.transmittance, 0);
    assert_eq!(out.alpha, ONE_Q);
    // Transparent splats are all walked and occlude nothing.
    let (out, aux) = composite_pixel_aux(&vec![contribution(0, ONE_Q, ONE_Q, ONE_Q); 5], bg);
    assert_eq!(aux.hits, 5);
    assert_eq!(aux.transmittance, ONE_Q);
    assert_eq!(out.alpha, 0);
}

#[test]
fn rerunning_identical_composite_is_bit_identical() {
    let bg = Rgb { red: 11, green: 22, blue: 33 };
    let contribs = vec![
        contribution(ONE_Q / 3, ONE_Q / 2, ONE_Q / 4, ONE_Q / 5),
        contribution(ONE_Q / 7, 1000, 2000, 3000),
    ];
    let a = composite_pixel(&contribs, bg);
    let b = composite_pixel(&contribs, bg);
    assert_eq!(a, b);
}

#[test]
fn splats_bin_into_every_overlapped_tile() {
    let g = tile_grid(64, 32).unwrap();
    let splats = vec![
        // Spans tiles (0,0) and (1,0) in x.
        ProjectedSplat { rect: PixelRect { min_x: 10, min_y: 2, max_x: 20, max_y: 5 }, depth: 9 },
        // Only tile (3,1).
        ProjectedSplat { rect: PixelRect { min_x: 50, min_y: 20, max_x: 55, max_y: 25 }, depth: 4 },
        // Off screen entirely: binned nowhere.
        ProjectedSplat { rect: PixelRect { min_x: -9, min_y: -9, max_x: -1, max_y: -1 }, depth: 1 },
    ];
    let bins = bin_splats(&g, &splats);
    assert_eq!(bins.len(), 4 * 2);
    assert_eq!(bins[0], vec![bin_key(9, 0)]);
    assert_eq!(bins[1], vec![bin_key(9, 0)]);
    assert_eq!(bins[2], Vec::<u64>::new());
    assert_eq!(bins[4 + 3], vec![bin_key(4, 1)]);
    let total: usize = bins.iter().map(|b| b.len()).sum();
    assert_eq!(total, 3);
}

#[test]
fn tile_lists_come_out_depth_ordered() {
    let g = tile_grid(16, 16).unwrap();
    let rect = PixelRect { min_x: 0, min_y: 0, max_x: 15, max_y: 15 };
    let splats = vec![
        ProjectedSplat { rect, depth: 30 },
        ProjectedSplat { rect, depth: 10 },
        ProjectedSplat { rect, depth: 20 },
        ProjectedSplat { rect, depth: 10 },
    ];
    let bins = bin_and_sort(&g, &splats);
    assert_eq!(bins.len(), 1);
    // Nearest first; the two splats at depth 10 keep ascending splat order.
    assert_eq!(
        bins[0],
        vec![bin_key(10, 1), bin_key(10, 3), bin_key(20, 2), bin_key(30, 0)]
    );
    // Re-running the identical binning gives the identical result.
    let again = bin_and_sort(&g, &splats);
    assert_eq!(bins, again);
}

#[test]
fn splat_store_accepts_consistent_arrays() {
    let store = SplatStore::new(
        8,
        1,
        vec![0; 24],
        vec![0; 24],
        vec![0; 32],
        vec![0; 24],
        vec![0; 8],
    )
    .unwrap();
    assert_eq!(store.n, 8);
    assert_eq!(store.sh_k, 1);
}

#[test]
fn splat_store_rejects_mismatched_arrays() {
    // One rotation word short: quaternions need four per splat.
    let r = SplatStore::new(8, 1, vec![0; 24], vec![0; 24], vec![0; 31], vec![0; 24], vec![0; 8]);
    assert_eq!(r.unwrap_err(), RenderError::SplatArrayMismatch);
    // Coefficient array not matching sh_k.
    let r = SplatStore::new(8, 2, vec![0; 24], vec![0; 24], vec![0; 32], vec![0; 24], vec![0; 8]);
    assert_eq!(r.unwrap_err(), RenderError::SplatArrayMismatch);
    // sh_k of zero is never valid.
    let r = SplatStore::new(8, 0, vec![0; 24], vec![0; 24], vec![0; 32], vec![0; 0], vec![0; 8]);
    assert_eq!(r.unwrap_err(), RenderError::SplatArrayMismatch);
}

#[test]
fn render_mode_selects_full_color_pass() {
    assert!(RenderMode::Default.runs_full_color());
    assert!(!RenderMode::DepthOnly.runs_full_color());
    assert!(!RenderMode::AlphaOnly.runs_full_color());
}

#[test]
fn focal_length_overrides_field_of_view() {
    assert_eq!(
        resolve_fov_sources(true, true, true),
        (AxisFovSource::Focal, AxisFovSource::Focal)
    );
    assert_eq!(
        resolve_fov_sources(false, false, true),
        (AxisFovSource::ExplicitFov, AxisFovSource::ExplicitFov)
    );
    assert_eq!(
        resolve_fov_sources(false, false, false),
        (AxisFovSource::ExplicitFov, AxisFovSource::DerivedFromOtherAxis)
    );
    assert_eq!(
        resolve_fov_sources(true, false, false),
        (AxisFovSource::Focal, AxisFovSource::DerivedFromOtherAxis)
    );
}
