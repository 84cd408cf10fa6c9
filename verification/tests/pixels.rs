//! Textures, rectangles, strokes and fills.

use lowtex::fill::{build_outline, fill_texels, texels_with, FaceLock, FillMap};
use lowtex::raster::rasterize;
use lowtex::stroke::{apply_coverage, apply_coverage_row, Splat, StrokeBuffers};
use lowtex::surface::Adjacency;
use lowtex::mesh::{Mesh, SourceTransform, Vertex};
use lowtex::texture::{
    bounding_rect, copy_region, level_image, make_checkerboard, padded_row_bytes, paste_region,
    ramp_image, restore_margin, strip_row_padding, tint_image, PaintTexture, TexRect,
};

fn rect(x0: u32, y0: u32, x1: u32, y1: u32) -> TexRect {
    TexRect { x0, y0, x1, y1 }
}

fn splat(texel: usize, cov: u32) -> Splat {
    Splat { texel, cov, src: [200, 100, 50] }
}

/// Takes the source colour where there is any coverage, and shows the coverage as alpha.
fn lay(_base: [u8; 4], src: [u8; 3], cov: u32) -> [u8; 4] {
    [src[0], src[1], src[2], cov as u8]
}

#[test]
fn rectangles() {
    let r = rect(2, 3, 5, 9);
    assert_eq!((r.width(), r.height()), (3, 6));
    assert!(r.contains(2, 3) && r.contains(4, 8));
    assert!(!r.contains(5, 8) && !r.contains(4, 9));
    assert_eq!(r.union(rect(4, 0, 8, 4)), rect(2, 0, 8, 9));
    assert_eq!(r.expanded(4, 10), rect(0, 0, 9, 10));
    assert_eq!(TexRect::clipped(1, 1, 20, 3, 8), Some(rect(1, 1, 8, 3)));
    assert_eq!(TexRect::clipped(8, 1, 20, 3, 8), None);
}

#[test]
fn a_pasted_region_comes_back() {
    let mut px: Vec<u8> = (0..64).collect();
    let part: Vec<u8> = (100..116).collect();
    paste_region(&mut px, &part, 4, rect(1, 2, 3, 4));
    assert_eq!(copy_region(&px, 4, rect(1, 2, 3, 4)), part);
    assert_eq!(&px[0..36], &(0..36).collect::<Vec<u8>>()[..]);
    assert_eq!(&px[36..44], &part[0..8]);
}

#[test]
fn a_margin_goes_back_to_what_it_was() {
    let mut px = vec![9u8; 36];
    let before = vec![1u8; 36];
    restore_margin(&mut px, &before, 3, rect(0, 0, 3, 3), rect(1, 1, 2, 2));
    assert_eq!(&px[16..20], &[9; 4]);
    assert_eq!(px.iter().filter(|&&b| b == 1).count(), 32);
}

#[test]
fn a_checkerboard_alternates() {
    let t = make_checkerboard(64, 64);
    assert_eq!(t.pixels.len(), 64 * 64 * 4);
    let shades: std::collections::HashSet<u8> =
        t.pixels.chunks_exact(4).map(|p| p[0]).collect();
    assert_eq!(shades.len(), 2);
    assert!(t.pixels.chunks_exact(4).all(|p| p[3] == 255 && p[0] == p[1] && p[1] == p[2]));
}

#[test]
fn a_fresh_texture_has_one_colour() {
    let t = PaintTexture::new(2, 1, [1, 2, 3, 4]);
    assert_eq!(t.pixels, vec![1, 2, 3, 4, 1, 2, 3, 4]);
    assert_eq!(t.copied().pixels, t.pixels);
}

#[test]
fn read_back_rows_are_padded() {
    assert_eq!(padded_row_bytes(1), 256);
    assert_eq!(padded_row_bytes(64), 256);
    assert_eq!(padded_row_bytes(65), 512);
    let mut data = vec![0u8; 512];
    data[..4].copy_from_slice(&[1, 2, 3, 4]);
    data[256..260].copy_from_slice(&[5, 6, 7, 8]);
    assert_eq!(strip_row_padding(&data, 1, 2, 256), vec![1, 2, 3, 4, 5, 6, 7, 8]);
}

#[test]
fn a_bounding_rect_holds_every_texel() {
    assert_eq!(bounding_rect(&vec![9, 6, 14], 4), Some(rect(1, 1, 3, 4)));
    assert_eq!(bounding_rect(&vec![], 4), None);
}

#[test]
fn generated_images() {
    let t = tint_image(1, [9, 8, 7], &vec![60]);
    assert_eq!(t.pixels, vec![9, 8, 7, 60]);
    let t = ramp_image(1, &vec![true], &vec![[1, 2, 3]]);
    assert_eq!(t.pixels, vec![1, 2, 3, 255]);
    let t = ramp_image(1, &vec![false], &vec![[1, 2, 3]]);
    assert_eq!(t.pixels[3], 0);
    let t = level_image(1, &vec![77]);
    assert_eq!(t.pixels, vec![77, 77, 77, 255]);
}

#[test]
fn a_stroke_keeps_its_strongest_coverage() {
    let mut b = StrokeBuffers::new(4);
    let mut px = vec![0u8; 16];
    let r = b.deposit(&mut px, &vec![splat(1, 40), splat(3, 20)], 2, &lay);
    assert_eq!(r, Some(rect(1, 0, 2, 2)));
    assert_eq!(&px[4..8], &[200, 100, 50, 40]);
    // A weaker dab changes nothing, a stronger one wins.
    assert_eq!(b.deposit(&mut px, &vec![splat(1, 30)], 2, &lay), None);
    assert_eq!(px[7], 40);
    b.deposit(&mut px, &vec![splat(1, 50)], 2, &lay);
    assert_eq!(px[7], 50);
    // A new stroke starts over.
    b.bump_stroke_id();
    b.deposit(&mut px, &vec![splat(1, 5)], 2, &lay);
    assert_eq!(px[7], 5);
}

#[test]
fn a_stroke_blends_against_what_it_started_from() {
    let mut b = StrokeBuffers::new(1);
    let mut px = vec![10u8, 0, 0, 255];
    let plus = |base: [u8; 4], _: [u8; 3], cov: u32| [base[0] + cov as u8, 0, 0, 255];
    b.deposit(&mut px, &vec![splat(0, 5), splat(0, 7)], 1, &plus);
    assert_eq!(px[0], 17);
}

#[test]
fn resized_buffers_are_fresh() {
    let mut b = StrokeBuffers::new(1);
    let mut px = vec![0u8; 4];
    b.deposit(&mut px, &vec![splat(0, 9)], 1, &lay);
    b.realloc(4);
    let mut px = vec![0u8; 16];
    b.deposit(&mut px, &vec![splat(0, 2)], 2, &lay);
    assert_eq!(px[3], 2);
}

#[test]
fn coverage_is_applied_once_per_texel() {
    let base = vec![10u8; 16];
    let mut px = vec![99u8; 16];
    let add = |_: usize, b: [u8; 4], a: u32| [b[0] + a as u8, b[1], b[2], b[3]];
    for _ in 0..2 {
        apply_coverage(&mut px, &base, &vec![3, 0], rect(0, 1, 2, 2), 2, &add);
    }
    assert_eq!(&px[8..12], &[13, 10, 10, 10]);
    assert_eq!(&px[12..16], &[99; 4]);
    assert_eq!(&px[0..8], &[99; 8]);

    let mut row = vec![0u8; 12];
    apply_coverage_row(&mut row, &vec![1u8; 12], &[0, 5], 1, 100, &|t, b, a| {
        [t as u8, b[0], a as u8, 0]
    });
    assert_eq!(row, vec![0, 0, 0, 0, 0, 0, 0, 0, 102, 1, 5, 0]);
}

/// Two facets side by side on a 4 by 4 image; the last column belongs to none.
fn halves() -> FillMap {
    let texel: Vec<i32> = (0..16).map(|t| [0, 0, 1, -1][t % 4]).collect();
    FillMap {
        size: 4,
        texel_island: texel.clone(),
        texel_facet: texel,
        island_of_tri: vec![0, 1],
        facet_of_tri: vec![0, 1],
    }
}

#[test]
fn a_fill_stops_at_seams() {
    let map = halves();
    assert_eq!(map.facet_for_tri(1), Some(1));
    assert_eq!(map.island_for_tri(2), None);
    let keep = texels_with(&map.texel_facet, 1);
    assert_eq!(keep.iter().filter(|&&k| k).count(), 4);
    let mut px = vec![0u8; 64];
    fill_texels(&mut px, 4, [5, 6, 7, 8], &keep, &map.covered());
    for t in 0..16 {
        let filled = px[4 * t] == 5;
        if t % 4 == 2 {
            assert!(filled, "texel {t} of the facet");
        }
        if t % 4 < 2 {
            assert!(!filled, "texel {t} of the other facet");
        }
    }
}

#[test]
fn a_lock_keeps_what_is_on_its_facets() {
    let map = halves();
    let mut lock = FaceLock { on: true, facets: None };
    lock.ensure_stroke_lock(&map, &vec![1]);
    assert_eq!(lock.facets, Some(vec![1]));
    // Once locked, the stroke stays locked to where it began.
    lock.ensure_stroke_lock(&map, &vec![0]);
    assert_eq!(lock.facets, Some(vec![1]));
    let mut splats = vec![splat(0, 1), splat(2, 1), splat(3, 1), splat(6, 1)];
    lock.retain_locked(&map, &mut splats);
    assert_eq!(splats.iter().map(|s| s.texel).collect::<Vec<usize>>(), vec![2, 6]);
    let mut faces = vec![0, 1];
    lock.retain_locked_faces(&map, &mut faces);
    assert_eq!(faces, vec![1]);
    assert_eq!(lock.outline_target_facets(true, Some(0)), vec![1]);
    assert_eq!(lock.outline_target_facets(false, Some(0)), vec![0]);
    let off = FaceLock { on: false, facets: None };
    assert!(off.outline_target_facets(false, Some(0)).is_empty());
}

#[test]
fn an_outline_runs_round_the_facets() {
    let p = |x: i32, y: i32| Vertex { position: [x, y, 0], normal: [0; 3], uv: [0; 2] };
    let mesh = Mesh {
        vertices: vec![p(0, 0), p(1, 0), p(0, 1), p(1, 1)],
        indices: vec![0, 1, 2, 2, 1, 3],
        needs_normals: false,
        needs_uvs: false,
        source_transform: SourceTransform { scale: 1, offset: [0; 3] },
    };
    let adj = Adjacency::build(&mesh);
    let map = halves();
    assert_eq!(build_outline(&map, &adj, &vec![0]), vec![(0, 0), (0, 1), (0, 2)]);
    assert_eq!(build_outline(&map, &adj, &vec![0, 1]).len(), 6, "each facet has its own rim");
}

#[test]
fn a_box_is_walked_row_by_row() {
    let found = rasterize(8, 1, 4, 2, 4, &|x, y| if (x + y) % 2 == 0 { Some(x) } else { None });
    assert_eq!(found, vec![(18, 2), (25, 1), (27, 3)]);
}

#[test]
fn a_texture_is_resampled_by_its_nearest_texels() {
    let shade = |v: u8| [v, v, v, 255];
    let tex = PaintTexture {
        width: 2,
        height: 1,
        pixels: [shade(10), shade(20)].concat(),
    };
    let wide = tex.nearest(4);
    assert_eq!((wide.width, wide.height), (4, 4));
    let reds: Vec<u8> = wide.pixels.iter().step_by(4).copied().collect();
    assert_eq!(reds[..4], [10, 10, 20, 20]);
    assert_eq!(reds[12..], [10, 10, 20, 20]);
    assert_eq!(wide.nearest(2).pixels[..8], tex.pixels[..]);
    assert_eq!(tex.nearest(1).pixels, shade(10));
}
