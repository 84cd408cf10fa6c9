//! Numbering, welding, charts, slots and packing.

use lowtex::atlas::pack_pixels;
use lowtex::charts::grow_charts;
use lowtex::mesh::{build_split, build_uv_edges, tri_data, Mesh, SourceTransform, SplitTri, Vertex};
use lowtex::numbering::number_keys;
use lowtex::pick::{
    chart_rectify, compass_axis_at, diameter, first_greatest, first_least, register,
};
use lowtex::skyline::{
    skyline_add, skyline_fit, skyline_pack, skyline_top, square_bound, tallest_first, Segment,
};
use lowtex::slots::{dist_key, group_congruent_charts, MAX_MATCH_VERTS};
use lowtex::surface::{splat_faces, Adjacency, SplatScratch};
use lowtex::unwrap::{
    build_adjacency, dedup_verts, max_pow2, next_pow2, weld_positions, AtlasFit, Density,
    UnwrapOptions, UnwrapResult,
};

fn point(x: i32, y: i32) -> Vertex<i32> {
    Vertex { position: [x, y, 0], normal: [0, 0, 1], uv: [x, y] }
}

/// Two triangles that share the edge from (1, 0) to (0, 1), with their own corners.
fn hinge() -> Mesh<i32> {
    Mesh {
        vertices: vec![
            point(0, 0),
            point(1, 0),
            point(0, 1),
            point(0, 1),
            point(1, 0),
            point(1, 1),
        ],
        indices: (0..6).collect(),
        needs_normals: false,
        needs_uvs: false,
        source_transform: SourceTransform { scale: 1, offset: [0; 3] },
    }
}

#[test]
fn equal_keys_get_the_number_of_the_first() {
    assert_eq!(number_keys(&vec![7, 3, 7, 9, 3]), vec![0, 1, 0, 2, 1]);
    assert!(number_keys(&vec![]).is_empty());
}

#[test]
fn welding_joins_equal_positions_only() {
    let keys = vec![(0, 0, 0), (1, 0, 0), (0, 1, 0), (0, 1, 0), (1, 0, 0), (-1, 0, 0)];
    assert_eq!(weld_positions(&keys), vec![0, 1, 2, 2, 1, 3]);
}

#[test]
fn repeated_corners_are_kept_once() {
    let keys = vec![(0, 0), (5, 0), (0, 0), (5, 5), (5, 0)];
    assert_eq!(dedup_verts(&keys), vec![0, 1, 3]);
}

#[test]
fn a_shared_edge_links_both_ways() {
    let mesh = hinge();
    let adj = build_adjacency(&mesh, &vec![0, 1, 2, 2, 1, 3]);
    assert_eq!(adj, vec![vec![1], vec![0]]);
    let apart = build_adjacency(&mesh, &vec![0, 1, 2, 3, 4, 5]);
    assert_eq!(apart, vec![Vec::<usize>::new(), Vec::new()]);
}

#[test]
fn neighbours_are_listed_in_order() {
    let mesh = Mesh {
        vertices: (0..9).map(|i| point(i, 0)).collect(),
        indices: (0..9).collect(),
        ..hinge()
    };
    let adj = build_adjacency(&mesh, &vec![0, 1, 2, 1, 0, 3, 0, 1, 4]);
    assert_eq!(adj, vec![vec![1, 2], vec![0, 2], vec![0, 1]]);
}

#[test]
fn an_open_edge_has_no_neighbour() {
    let adj = Adjacency::build(&hinge());
    assert_eq!(adj.neighbors(), &[[-1, 1, -1], [0, -1, -1]]);
}

#[test]
fn a_flood_stops_where_nothing_is_near() {
    let adj = Adjacency::build(&hinge());
    let mut scratch = SplatScratch::new();
    assert_eq!(splat_faces(&adj, 0, |_| true, &mut scratch), vec![0, 1]);
    assert_eq!(splat_faces(&adj, 0, |_| false, &mut scratch), vec![0]);
    assert_eq!(splat_faces(&adj, 1, |t| t == 0, &mut scratch), vec![1, 0]);
    assert!(splat_faces(&adj, 2, |_| true, &mut scratch).is_empty());
}

#[test]
fn charts_grow_from_the_seed_while_they_may() {
    let adj = vec![vec![1], vec![0, 2], vec![1], vec![]];
    let (of, charts) = grow_charts(&adj, |seed, t| seed == 0 && t < 2);
    assert_eq!(of, vec![0, 0, 1, 2]);
    assert_eq!(charts, vec![vec![0, 1], vec![2], vec![3]]);
}

#[test]
fn triangles_give_back_their_corners() {
    let mesh = hinge();
    let (p, uv) = tri_data(&mesh, 1);
    assert_eq!(p, [[0, 1, 0], [1, 0, 0], [1, 1, 0]]);
    assert_eq!(uv, [[0, 1], [1, 0], [1, 1]]);
    assert_eq!(mesh.tri_count(), 2);
}

#[test]
fn a_split_mesh_has_three_corners_per_triangle() {
    let t = SplitTri {
        positions: [[1, 2, 3], [4, 5, 6], [7, 8, 9]],
        normals: [[0, 0, 1], [0, 1, 0], [1, 0, 0]],
        uvs: [[0, 0], [1, 0], [0, 1]],
    };
    let mesh = build_split(&vec![t, t], SourceTransform { scale: 2, offset: [3; 3] });
    assert_eq!(mesh.indices, vec![0, 1, 2, 3, 4, 5]);
    assert_eq!(mesh.vertices[4].position, [4, 5, 6]);
    assert_eq!(mesh.vertices[4].normal, [0, 1, 0]);
    assert_eq!(mesh.vertices[4].uv, [1, 0]);
    assert!(!mesh.needs_normals && !mesh.needs_uvs);
    assert_eq!(mesh.source_transform, SourceTransform { scale: 2, offset: [3; 3] });
}

#[test]
fn every_triangle_gives_three_uv_edges() {
    let edges = build_uv_edges(&hinge());
    assert_eq!(edges.len(), 6);
    assert_eq!(edges[0], [0, 0, 1, 0]);
    assert_eq!(edges[2], [0, 1, 0, 0]);
}

#[test]
fn indices_become_native_bytes() {
    let mut mesh = hinge();
    mesh.indices = vec![1, 0x0102_0304, 5];
    let (bytes, n) = mesh.index_buffer();
    assert_eq!(n, 3);
    assert_eq!(bytes.len(), 12);
    assert_eq!(&bytes[4..8], &0x0102_0304u32.to_ne_bytes());
}

#[test]
fn distances_are_sorted_behind_the_count() {
    assert_eq!(dist_key(4, vec![30, 10, 20, 10]), vec![4, 10, 10, 20, 30]);
    assert_eq!(dist_key(0, vec![]), vec![0]);
}

#[test]
fn congruent_charts_share_a_slot() {
    let verts = vec![3, 3, 4, 3];
    let keys = vec![vec![3, 1], vec![3, 1], vec![4, 1], vec![3, 1]];
    let fits = |r: usize, c: usize| if c == 3 { None } else { Some((r, c)) };
    let g = group_congruent_charts(&verts, &keys, fits, true);
    assert_eq!(g.slot_of, vec![0, 0, 1, 2]);
    assert_eq!(g.slot_reps, vec![0, 2, 3]);
    assert_eq!(g.placed, vec![None, Some((0, (0, 1))), None, None]);
}

#[test]
fn without_overlap_every_chart_has_its_own_slot() {
    let g = group_congruent_charts(&vec![3, 3], &vec![vec![3], vec![3]], |_, _| Some(0), false);
    assert_eq!(g.slot_of, vec![0, 1]);
    assert_eq!(g.slot_reps, vec![0, 1]);
    assert_eq!(g.placed, vec![None, None]);
}

#[test]
fn huge_charts_are_not_matched() {
    let verts = vec![MAX_MATCH_VERTS + 1, MAX_MATCH_VERTS + 1];
    let g = group_congruent_charts(&verts, &vec![vec![1], vec![1]], |_, _| Some(0), true);
    assert_eq!(g.slot_of, vec![0, 1]);
}

#[test]
fn a_skyline_rests_on_its_highest_part() {
    let sky = vec![Segment { x: 0, w: 4, top: 3 }, Segment { x: 4, w: 6, top: 1 }];
    assert_eq!(skyline_top(&sky, 0, 4), 3);
    assert_eq!(skyline_top(&sky, 4, 2), 1);
    assert_eq!(skyline_top(&sky, 3, 2), 3);
    assert_eq!(skyline_fit(&sky, 6, 10), (4, 1));
    assert_eq!(skyline_fit(&sky, 8, 10), (0, 3));
    assert_eq!(skyline_fit(&sky, 20, 10), (4, 1));
}

#[test]
fn raising_a_skyline_splits_and_merges_it() {
    let mut sky = vec![Segment { x: 0, w: 10, top: 0 }];
    skyline_add(&mut sky, 2, 3, 5);
    let tops: Vec<(u64, u64, u64)> = sky.iter().map(|s| (s.x, s.w, s.top)).collect();
    assert_eq!(tops, vec![(0, 2, 0), (2, 3, 5), (5, 5, 0)]);
    skyline_add(&mut sky, 5, 7, 5);
    let tops: Vec<(u64, u64, u64)> = sky.iter().map(|s| (s.x, s.w, s.top)).collect();
    assert_eq!(tops, vec![(0, 2, 0), (2, 10, 5)]);
}

#[test]
fn tall_boxes_come_first_and_the_layout_is_square() {
    let sizes = vec![(3, 2), (2, 5), (4, 2), (1, 5)];
    assert_eq!(tallest_first(&sizes), vec![1, 3, 0, 2]);
    // 6 + 10 + 8 + 5 texels: the side of the largest square within that is 5.
    assert_eq!(square_bound(&sizes), 5);
    assert_eq!(square_bound(&vec![(9, 1)]), 9);
}

#[test]
fn a_gutter_surrounds_each_box() {
    let (offsets, w, h) = skyline_pack(&[(4, 4), (4, 4)], 1);
    assert_eq!(offsets, vec![(0, 0), (0, 6)]);
    assert_eq!((w, h), (6, 12));
    assert_eq!(skyline_pack(&[], 1), (vec![], 0, 0));
}

#[test]
fn powers_of_two() {
    assert_eq!(next_pow2(0), 8);
    assert_eq!(next_pow2(8), 8);
    assert_eq!(next_pow2(9), 16);
    assert_eq!(next_pow2(0x8000_0000), 0x8000_0000);
    assert_eq!(max_pow2(0), 8);
    assert_eq!(max_pow2(64), 64);
    assert_eq!(max_pow2(8191), 4096);
}

#[test]
fn an_atlas_is_filled_then_trimmed() {
    let mut fit = AtlasFit::new(100, 90, 8192, true);
    assert_eq!((fit.atlas, fit.clamped), (128, false));
    assert_eq!(fit.next(100, 90), Some(100));
    assert_eq!(fit.next(128, 90), None);
    let mut fit = AtlasFit::new(100, 200, 64, false);
    assert_eq!((fit.atlas, fit.clamped), (64, true));
    for _ in 0..6 {
        assert_eq!(fit.next(100, 200), Some(200));
    }
    assert_eq!(fit.next(100, 200), None);
}

#[test]
fn packing_rescales_until_the_atlas_is_full() {
    let slots = vec![0usize];
    let boxes = |_: &(), s: &Vec<usize>, d: u64| vec![(d as u32, d as u32); s.len()];
    let scale = |d: u64, atlas: u32, extent: u64| d * atlas as u64 / extent;
    let p = pack_pixels(100, &(), &slots, &boxes, &scale, 0, 8192, true);
    assert_eq!((p.atlas, p.density, p.clamped), (128, 128, false));
    let p = pack_pixels(100, &(), &slots, &boxes, &scale, 0, 8192, false);
    assert_eq!((p.atlas, p.density, p.clamped), (128, 100, false));
    let p = pack_pixels(100, &(), &slots, &boxes, &scale, 0, 64, false);
    assert_eq!((p.atlas, p.density, p.clamped), (64, 64, true));
    let p = pack_pixels(100, &(), &vec![], &boxes, &scale, 0, 64, true);
    assert_eq!((p.atlas, p.density, p.clamped), (8, 100, false));
}

#[test]
fn the_first_of_the_best_is_picked() {
    assert_eq!(first_greatest(&vec![Some(3), None, Some(7), Some(7)], 0), Some(2));
    assert_eq!(first_greatest(&vec![Some(3), None], 3), None);
    assert_eq!(first_least(&vec![None, Some(3), Some(2), Some(2)]), Some(2));
    assert_eq!(first_least(&vec![None]), None);
    assert_eq!(chart_rectify(&vec![vec![Some(2), Some(1)], vec![]]), vec![Some(1), None]);
}

#[test]
fn a_diameter_joins_the_farthest_points() {
    let at = [0i32, 9, 4, -1];
    assert_eq!(diameter(4, &|i, j| (at[i] - at[j]).unsigned_abs()), Some((1, 3)));
    assert_eq!(diameter(2, &|_, _| 0), None);
}

#[test]
fn registration_tries_turns_before_mirrors_of_each_end() {
    assert_eq!(register(&|_, _| true), Some((false, false)));
    assert_eq!(register(&|_, mirror| mirror), Some((false, true)));
    assert_eq!(register(&|swapped, _| swapped), Some((true, false)));
    assert_eq!(register(&|_, _| false), None);
}

#[test]
fn the_compass_is_hit_outside_its_middle() {
    let aligned = vec![Some(5), None, Some(9)];
    assert_eq!(compass_axis_at(true, false, &aligned, 0), Some(2));
    assert_eq!(compass_axis_at(true, true, &aligned, 0), None);
    assert_eq!(compass_axis_at(false, false, &aligned, 0), None);
    assert_eq!(compass_axis_at(true, false, &aligned, 9), None);
}

#[test]
fn unwrap_defaults() {
    let o = UnwrapOptions::with_cone(40);
    assert_eq!(o.density, Density::Medium);
    assert_eq!((o.gutter_px, o.max_atlas, o.target_atlas_px), (4, 8192, 128));
    assert!(o.snap_texels && !o.overlap_identical && o.target_density.is_none());
    assert_eq!(Density::ALL.map(|d| d.name()), ["Low", "Medium", "High"]);
    let empty = |target: u32, most: u32| {
        UnwrapResult::<i32>::empty(target, most, 1, SourceTransform { scale: 1, offset: [0; 3] })
    };
    let r = empty(4, 8192);
    assert_eq!((r.atlas_size, r.clamped, r.density_d), (8, false, 1));
    assert!(r.mesh.vertices.is_empty());
    assert_eq!(empty(100, 8192).atlas_size, 128);
    assert_eq!(empty(128, 64).atlas_size, 64);
    assert_eq!(empty(128, 100).atlas_size, 64);
    assert_eq!(empty(128, 4).atlas_size, 8);
}
