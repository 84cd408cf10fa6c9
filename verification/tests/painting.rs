//! Painting on a cube whose faces are separate islands of the texture.

use glam::{Vec2, Vec3};
use lowtex::fill::FillMap;
use lowtex::frame::BRUSH_RING_SEGMENTS;
use lowtex::gpu_stroke::FinishPlan;
use lowtex::layers::{BlendMode, Effect, Layers};
use lowtex::mesh::{tri_data, Mesh, SourceTransform, Vertex};
use lowtex::painting::{Ink, ScreenDab, Touch};
use lowtex::raster::rasterize;
use lowtex::renderer::{
    DabPath, PaintTarget, PaletteSettings, Renderer, ResolveKind, SymmetryAxis,
};
use lowtex::stroke::Splat;
use lowtex::surface::{splat, splat_world, Adjacency, SplatScratch};
use lowtex::texture::{bounding_rect, copy_region, TexRect};
use std::cell::RefCell;

const SIZE: u32 = 64;
const IDENTITY: SourceTransform<f32> = SourceTransform { scale: 1.0, offset: [0.0; 3] };

struct Hit {
    tri: u32,
    pos: Vec3,
}

fn cube() -> Mesh<f32> {
    let h = 0.5;
    let faces = [
        [[-h, -h, h], [h, -h, h], [h, h, h], [-h, h, h]],
        [[h, -h, -h], [-h, -h, -h], [-h, h, -h], [h, h, -h]],
        [[h, -h, h], [h, -h, -h], [h, h, -h], [h, h, h]],
        [[-h, -h, -h], [-h, -h, h], [-h, h, h], [-h, h, -h]],
        [[-h, h, h], [h, h, h], [h, h, -h], [-h, h, -h]],
        [[-h, -h, -h], [h, -h, -h], [h, -h, h], [-h, -h, h]],
    ];
    let mut vertices = Vec::new();
    for (f, c) in faces.iter().enumerate() {
        let (u, v) = ((f % 3) as f32 / 3.0 + 0.02, (f / 3) as f32 / 2.0 + 0.02);
        let s = 0.28;
        let uv = [[u, v], [u + s, v], [u + s, v + s], [u, v + s]];
        for k in [0, 1, 2, 0, 2, 3] {
            vertices.push(Vertex { position: c[k], normal: [0.0; 3], uv: uv[k] });
        }
    }
    Mesh {
        indices: (0..36).collect(),
        vertices,
        needs_normals: false,
        needs_uvs: false,
        source_transform: IDENTITY,
    }
}

fn adjacency(mesh: &Mesh<f32>) -> Adjacency {
    let tick = |x: f32| (x * 1e4).round() as i32;
    Adjacency::build(&Mesh {
        vertices: mesh
            .vertices
            .iter()
            .map(|v| Vertex { position: v.position.map(tick), normal: [0; 3], uv: [0; 2] })
            .collect(),
        indices: mesh.indices.clone(),
        needs_normals: false,
        needs_uvs: false,
        source_transform: SourceTransform { scale: 1, offset: [0; 3] },
    })
}

fn corners(mesh: &Mesh<f32>, tri: u32) -> ([Vec3; 3], [Vec2; 3]) {
    let (p, uv) = tri_data(mesh, tri);
    (p.map(Vec3::from), uv.map(Vec2::from))
}

fn cube_hit(mesh: &Mesh<f32>, tri: u32) -> Hit {
    let (p, _) = corners(mesh, tri);
    Hit { tri, pos: (p[0] + p[1] + p[2]) / 3.0 }
}

fn edge_fn(a: Vec2, b: Vec2, c: Vec2) -> f32 {
    (b - a).perp_dot(c - a)
}

/// The texels of a triangle's footprint with their surface points.
fn footprint(mesh: &Mesh<f32>, tri: usize, size: u32) -> Vec<(usize, Vec3)> {
    let (p, uv) = corners(mesh, tri as u32);
    let t = uv.map(|q| q * size as f32);
    let area = edge_fn(t[0], t[1], t[2]);
    let lo = t[0].min(t[1]).min(t[2]).floor().max(Vec2::ZERO);
    let hi = t[0].max(t[1]).max(t[2]).ceil().min(Vec2::splat(size as f32));
    rasterize(size, lo.x as u32, hi.x as u32, lo.y as u32, hi.y as u32, &|x, y| {
        let pt = Vec2::new(x as f32 + 0.5, y as f32 + 0.5);
        let w = [
            edge_fn(t[1], t[2], pt) / area,
            edge_fn(t[2], t[0], pt) / area,
            edge_fn(t[0], t[1], pt) / area,
        ];
        if w.iter().any(|&x| x < 0.0) {
            None
        } else {
            Some(p[0] * w[0] + p[1] * w[1] + p[2] * w[2])
        }
    })
}

/// The distance from a point to a segment.
fn segment_dist(p: Vec3, a: Vec3, b: Vec3) -> f32 {
    let t = ((p - a).dot(b - a) / (b - a).length_squared()).clamp(0.0, 1.0);
    p.distance(a + (b - a) * t)
}

/// The distance from a point to a triangle.
fn point_tri_dist(p: Vec3, t: &[Vec3; 3]) -> f32 {
    let n = (t[1] - t[0]).cross(t[2] - t[0]).normalize();
    let inside = (0..3).all(|e| (t[(e + 1) % 3] - t[e]).cross(p - t[e]).dot(n) >= 0.0);
    if inside {
        (p - t[0]).dot(n).abs()
    } else {
        (0..3).map(|e| segment_dist(p, t[e], t[(e + 1) % 3])).fold(f32::INFINITY, f32::min)
    }
}

fn dab(
    mesh: &Mesh<f32>,
    adj: &Adjacency,
    hit: &Hit,
    r: f32,
    size: u32,
    scratch: &mut SplatScratch,
) -> Vec<(usize, u32)> {
    splat(
        adj,
        hit.tri as usize,
        r > 0.0,
        |t| point_tri_dist(hit.pos, &corners(mesh, t as u32).0) <= r,
        &|t| {
            footprint(mesh, t, size)
                .into_iter()
                .map(|(texel, p)| (texel, (1.0 - p.distance(hit.pos) / r).max(0.0).to_bits()))
                .filter(|&(_, a)| a > 0)
                .collect()
        },
        scratch,
    )
}

fn dab_points(mesh: &Mesh<f32>, adj: &Adjacency, hit: &Hit, r: f32) -> Vec<(usize, Vec3)> {
    let size = SIZE;
    splat_world(
        adj,
        hit.tri as usize,
        r > 0.0,
        |t| point_tri_dist(hit.pos, &corners(mesh, t as u32).0) <= r,
        &|t| {
            footprint(mesh, t, size).into_iter().filter(|(_, p)| p.distance(hit.pos) <= r).collect()
        },
        &mut SplatScratch::new(),
    )
}

/// The island of each texel: the face whose footprint it is in.
fn islands(mesh: &Mesh<f32>, splats: &Vec<(usize, u32)>) -> std::collections::HashSet<usize> {
    let size = SIZE;
    let mut map = vec![usize::MAX; (size * size) as usize];
    for t in 0..12 {
        for (texel, _) in footprint(mesh, t, size) {
            map[texel] = t / 2;
        }
    }
    splats.iter().map(|&(texel, _)| map[texel]).filter(|&i| i != usize::MAX).collect()
}

#[test]
fn splat_world_returns_points_inside_the_radius() {
    let mesh = cube();
    let adj = adjacency(&mesh);
    let hit = cube_hit(&mesh, 0);
    let r = 0.2;
    let pts = dab_points(&mesh, &adj, &hit, r);
    assert!(!pts.is_empty(), "the hit face must yield texels");
    for &(_, wp) in &pts {
        assert!(wp.distance(hit.pos) <= r + 1e-4, "point {wp:?} is outside the flood radius");
    }
    let wide = dab_points(&mesh, &adj, &hit, 0.45);
    assert!(wide.len() > pts.len(), "a wider flood covers more surface");
}

#[test]
fn small_dab_stays_on_one_face() {
    let mesh = cube();
    let adj = adjacency(&mesh);
    let hit = cube_hit(&mesh, 0);
    let splats = dab(&mesh, &adj, &hit, 0.05, SIZE, &mut SplatScratch::new());
    assert!(!splats.is_empty(), "the dab must paint something");
    assert_eq!(islands(&mesh, &splats).len(), 1, "a small dab stays within one island");
}

#[test]
fn dab_on_a_mid_edge_wraps_onto_the_neighbour() {
    let mesh = cube();
    let adj = adjacency(&mesh);
    let (p, _) = corners(&mesh, 0);
    let nbs = adj.neighbors()[0];
    let shared = (0..3).find(|&e| nbs[e] >= 0).expect("tri 0 has a neighbour");
    let hit = Hit { tri: 0, pos: (p[shared] + p[(shared + 1) % 3]) * 0.5 };
    let splats = dab(&mesh, &adj, &hit, 0.1, SIZE, &mut SplatScratch::new());
    let reached = islands(&mesh, &splats).len();
    assert!(reached >= 2, "a dab on a shared edge must reach the next island (got {reached})");
}

#[test]
fn large_dab_wraps_across_faces() {
    let mesh = cube();
    let adj = adjacency(&mesh);
    let hit = cube_hit(&mesh, 0);
    let splats = dab(&mesh, &adj, &hit, 5.0, SIZE, &mut SplatScratch::new());
    let reached = islands(&mesh, &splats).len();
    assert!(reached >= 2, "a dab wider than a face must cross it (got {reached} islands)");
}

#[test]
fn reused_scratch_matches_fresh_scratch() {
    let mesh = cube();
    let adj = adjacency(&mesh);
    let dabs = [(0u32, 0.05f32), (0, 5.0), (3, 0.3), (7, 2.0), (0, 0.05)];
    let mut reused = SplatScratch::new();
    for &(tri, radius) in &dabs {
        let hit = cube_hit(&mesh, tri);
        let from_reused = dab(&mesh, &adj, &hit, radius, SIZE, &mut reused);
        let from_fresh = dab(&mesh, &adj, &hit, radius, SIZE, &mut SplatScratch::new());
        assert_eq!(
            from_reused, from_fresh,
            "reused scratch diverged on dab tri={tri} r={radius}"
        );
    }
}

#[test]
fn no_radius_or_no_triangle_paints_nothing() {
    let mesh = cube();
    let adj = adjacency(&mesh);
    let hit = cube_hit(&mesh, 0);
    assert!(dab(&mesh, &adj, &hit, 0.0, SIZE, &mut SplatScratch::new()).is_empty());
    let off = Hit { tri: 12, pos: hit.pos };
    assert!(dab(&mesh, &adj, &off, 0.3, SIZE, &mut SplatScratch::new()).is_empty());
}

/// A painter of the cube, with its texture shown.
fn headless(w: u32, h: u32) -> Renderer<f32> {
    let mut r = Renderer::new(
        cube(),
        "Base".to_string(),
        1.0,
        "PICO-8".to_string(),
        vec![[0.0, 0.0, 0.0], [1.0, 1.0, 1.0]],
        0.06,
        4.0,
        0.0,
        [0.221, 0.272, 0.313],
        w,
        h,
        8192,
        false,
        false,
        &|stack: &Layers<f32>| stack.layers[0].tex.pixels.clone(),
    );
    r.ensure_fill_map(&|mesh, size| {
        let mut map = vec![-1; (size * size) as usize];
        for t in 0..12 {
            for (texel, _) in footprint(mesh, t, size) {
                map[texel] = (t / 2) as i32;
            }
        }
        FillMap {
            size,
            texel_island: map.clone(),
            texel_facet: map,
            island_of_tri: (0..12).map(|t| t / 2).collect(),
            facet_of_tri: (0..12).map(|t| t / 2).collect(),
        }
    });
    let ticks = |x: f32| (x * 1e4).round() as i32;
    let grid = Mesh {
        vertices: r
            .scene
            .mesh
            .vertices
            .iter()
            .map(|v| Vertex { position: v.position.map(ticks), normal: [0; 3], uv: [0; 2] })
            .collect(),
        indices: r.scene.mesh.indices.clone(),
        needs_normals: false,
        needs_uvs: false,
        source_transform: SourceTransform { scale: 1, offset: [0; 3] },
    };
    r.ensure_surface_adj(&grid);
    r
}

/// The front of the cube fills the middle of the view.
fn pick(cursor: (f32, f32)) -> Option<u32> {
    let (x, y) = (cursor.0 / 256.0, cursor.1 / 256.0);
    if (x - 0.5).abs() < 0.3 && (y - 0.5).abs() < 0.3 {
        Some(0)
    } else {
        None
    }
}

/// What a dab of `radius` texels lays down around a point of a triangle.
fn laid(r: &Renderer<f32>, tri: u32, pos: Vec3, radius: f32, src: [u8; 3]) -> Vec<Splat> {
    let mesh = &r.scene.mesh;
    let (p, uv) = corners(mesh, tri);
    let per_uv = (p[1] - p[0]).length() / (uv[1] - uv[0]).length();
    let world = radius / r.tex_size as f32 * per_uv;
    let adj = r.scene.surface_adj.as_ref().unwrap();
    let hit = Hit { tri, pos };
    dab(mesh, adj, &hit, world, r.tex_size, &mut SplatScratch::new())
        .into_iter()
        .map(|(texel, cov)| Splat { texel, cov, src })
        .collect()
}

fn screen_dab(r: &Renderer<f32>, tri: u32, radius: f32) -> ScreenDab {
    let pos = cube_hit(&r.scene.mesh, tri).pos;
    ScreenDab { hit: Some(touch(tri, laid(r, tri, pos, radius, [25, 178, 76]))), mirror: None }
}

fn touch(tri: u32, splats: Vec<Splat>) -> Touch {
    Touch { tri, id: 0, splats, faces: vec![] }
}

const INK: Ink = Ink { color: [25, 178, 76], erase: false, clean: true };

/// Nothing is painted on a GPU here.
fn no_gpu(_: usize, _: &Vec<u32>) -> Option<TexRect> {
    None
}

fn blend(base: [u8; 4], src: [u8; 3], cov: u32) -> [u8; 4] {
    let a = f32::from_bits(cov);
    let mix = |d: u8, s: u8| (d as f32 * (1.0 - a) + s as f32 * a).round() as u8;
    [mix(base[0], src[0]), mix(base[1], src[1]), mix(base[2], src[2]), base[3].max(mix(base[3], 255))]
}

fn rub(base: [u8; 4], _src: [u8; 3], cov: u32) -> [u8; 4] {
    let a = f32::from_bits(cov);
    [base[0], base[1], base[2], (base[3] as f32 * (1.0 - a)).round() as u8]
}

fn active(r: &Renderer<f32>) -> &Vec<u8> {
    &r.layers().layers[r.layers().active].tex.pixels
}

/// The texels that differ.
fn changed(a: &Vec<u8>, b: &Vec<u8>) -> std::collections::HashSet<usize> {
    a.chunks_exact(4)
        .zip(b.chunks_exact(4))
        .enumerate()
        .filter(|(_, (x, y))| x != y)
        .map(|(i, _)| i)
        .collect()
}

#[test]
fn dirty_tracking_drives_save_and_autosave() {
    let mut r = headless(1, 1);
    assert!(!r.is_dirty(), "a fresh document is clean");
    assert!(!r.needs_autosave());

    r.add_layer("Layer 2".to_string(), 1.0);
    assert!(r.is_dirty());
    assert!(r.needs_autosave());

    r.autosave(Ok(())).unwrap();
    assert!(r.is_dirty(), "autosave must not clear the user-facing dirty flag");
    assert!(!r.needs_autosave(), "autosave captures the autosave watermark");

    let file = r.write_project();
    r.save_project(Ok(())).unwrap();
    assert!(!r.is_dirty());
    assert!(!r.needs_autosave());

    r.undo();
    assert!(r.is_dirty());

    r.load_project(Ok(file), [0.0, 1.0, 0.0], [0.0, 0.0], IDENTITY).unwrap();
    assert!(!r.is_dirty());
    assert!(!r.needs_autosave());
}

#[test]
fn face_outline_traces_the_locked_facet_boundary() {
    let (cx, cy) = (128.0, 128.0);
    let mut r = headless(256, 256);
    let mut outline = 0;

    r.set_lock_face(false);
    if let Some(edges) = r.set_face_outline(pick((cx, cy))) {
        outline = 2 * edges.len();
    }
    assert_eq!(outline, 0, "lock off: no outline");

    r.set_lock_face(true);
    if let Some(edges) = r.set_face_outline(pick((cx, cy))) {
        outline = 2 * edges.len();
    }
    assert_eq!(outline, 8, "a cube face is a quad: 4 boundary edges, 8 line vertices");

    if let Some(edges) = r.set_face_outline(pick((1.0, 1.0))) {
        outline = 2 * edges.len();
    }
    assert_eq!(outline, 0, "ray missing the mesh: no outline");
}

/// What the cursor ring and the ghost depend on.
fn cursor_key(cursor: (f32, f32), radius: f32, color: [f32; 3], orbit: f32) -> Option<Vec<u32>> {
    let all = [cursor.0, cursor.1, radius, color[0], color[1], color[2], orbit];
    Some(all.iter().map(|x| x.to_bits()).collect())
}

#[test]
fn brush_cursor_ring_shows_over_mesh_and_hides_off_it() {
    let (cx, cy) = (128.0, 128.0);
    let mut r = headless(256, 256);
    let key = |c| cursor_key(c, 8.0, [0.0; 3], 0.0);

    r.set_brush_cursor(key((cx, cy)), pick((cx, cy)).is_some());
    assert_eq!(
        r.display.ring_count,
        BRUSH_RING_SEGMENTS * 2,
        "the ring over the mesh is a closed loop of line segments"
    );

    r.set_brush_cursor(key((1.0, 1.0)), pick((1.0, 1.0)).is_some());
    assert_eq!(r.display.ring_count, 0, "off the mesh: no ring");

    r.set_brush_cursor(None, false);
    assert_eq!(r.display.ring_count, 0, "no painting tool: no ring");
}

fn mix(d: u8, s: u8, cov: u32) -> u8 {
    let a = f32::from_bits(cov);
    (d as f32 + (s as f32 - d as f32) * a).round() as u8
}

fn hover(r: &mut Renderer<f32>, cursor: (f32, f32), color: [f32; 3], radius: f32, orbit: f32) {
    let hit = pick(cursor);
    let splats = match hit {
        Some(tri) => {
            let pos = cube_hit(&r.scene.mesh, tri).pos;
            laid(r, tri, pos, radius, color.map(|c| (c * 255.0).round() as u8))
        }
        None => Vec::new(),
    };
    r.set_brush_preview(cursor_key(cursor, radius, color, orbit), false, hit, None, splats, &mix);
}

#[test]
fn brush_preview_ghosts_without_committing() {
    let (cx, cy) = (128.0, 128.0);
    let color = [0.9, 0.1, 0.1];
    let mut r = headless(256, 256);
    let layer_before = active(&r).clone();
    let display_before = r.display.buf.clone();

    hover(&mut r, (cx, cy), color, 8.0, 0.0);
    assert!(r.display.preview_rect.is_some(), "hovering the mesh should arm a preview");
    assert_eq!(active(&r), &layer_before, "preview must not write into the layer");
    assert_eq!(r.display.buf, display_before, "preview must not touch the committed mirror");

    hover(&mut r, (1.0, 1.0), color, 8.0, 0.0);
    assert!(r.display.preview_rect.is_none(), "pointing off the mesh clears the preview");
    assert_eq!(r.display.buf, display_before, "reverting leaves the committed mirror intact");
}

#[test]
fn brush_preview_skips_recompute_when_inputs_unchanged() {
    let (cx, cy) = (128.0, 128.0);
    let mut r = headless(256, 256);
    let color = [0.1, 0.7, 0.3];

    hover(&mut r, (cx, cy), color, 6.0, 0.0);
    assert!(r.display.preview_rect.is_some(), "preview should ghost over the mesh");
    assert!(r.display.preview_key.is_some());

    r.display.preview_rect = None;
    hover(&mut r, (cx, cy), color, 6.0, 0.0);
    assert!(r.display.preview_rect.is_none(), "identical inputs must skip the recompute");

    let color2 = [0.9, 0.1, 0.1];
    hover(&mut r, (cx, cy), color2, 6.0, 0.0);
    assert!(r.display.preview_rect.is_some(), "a brush change must recompute the ghost");

    r.display.preview_rect = None;
    hover(&mut r, (cx, cy), color2, 6.0, 20.0);
    assert!(r.display.preview_rect.is_some(), "a camera move must recompute the ghost");

    r.begin_stroke();
    assert!(r.display.preview_key.is_none(), "begin_stroke must drop the hover ghost key");
    r.end_stroke();
    assert!(r.display.preview_key.is_none(), "end_stroke must force a fresh ghost");
}

#[test]
fn a_preview_without_a_cursor_leaves_no_ghost() {
    let mut r = headless(256, 256);
    hover(&mut r, (128.0, 128.0), [0.9, 0.1, 0.1], 8.0, 0.0);
    let ghost = r.display.preview_rect;
    assert!(ghost.is_some());
    r.begin_stroke();
    let plan = r.set_brush_preview(None, false, None, None, Vec::new(), &mix);
    assert_eq!(plan.revert.map(|(rect, _)| rect), ghost, "the ghost is taken back");
    assert!(plan.show.is_none() && r.display.preview_rect.is_none());
    let plan = r.set_brush_preview(None, false, None, None, Vec::new(), &mix);
    assert!(plan.revert.is_none(), "and only once");
}

#[test]
fn a_wider_dab_loses_no_texel() {
    let mesh = cube();
    let adj = adjacency(&mesh);
    let hit = cube_hit(&mesh, 0);
    let texels = |r: f32| -> std::collections::HashSet<usize> {
        dab_points(&mesh, &adj, &hit, r).into_iter().map(|(texel, _)| texel).collect()
    };
    let (near, wide) = (texels(0.2), texels(0.45));
    assert!(near.is_subset(&wide) && wide.len() > near.len());
}

#[test]
fn a_dab_off_the_mesh_leaves_the_scratch_alone() {
    let mesh = cube();
    let adj = adjacency(&mesh);
    let hit = cube_hit(&mesh, 0);
    let mut scratch = SplatScratch::new();
    dab(&mesh, &adj, &hit, 0.3, SIZE, &mut scratch);
    let before = format!("{scratch:?}");
    dab(&mesh, &adj, &hit, 0.0, SIZE, &mut scratch);
    dab(&mesh, &adj, &Hit { tri: 12, pos: hit.pos }, 0.3, SIZE, &mut scratch);
    assert_eq!(format!("{scratch:?}"), before);
}

#[test]
fn lock_face_keeps_the_dab_on_one_face() {
    let facets_touched = |lock: bool| -> std::collections::HashSet<i32> {
        let mut r = headless(256, 256);
        r.set_lock_face(lock);
        let before = active(&r).clone();
        r.begin_stroke();
        let d = screen_dab(&r, 0, 64.0);
        r.stamp_screen(d, INK, &blend, &rub, &no_gpu);
        r.end_stroke();
        let map = r.scene.fill_map.as_ref().unwrap();
        changed(&before, active(&r))
            .into_iter()
            .map(|i| map.texel_facet[i])
            .filter(|&f| f >= 0)
            .collect()
    };
    let unlocked = facets_touched(false);
    let locked = facets_touched(true);
    assert!(unlocked.len() >= 2, "a dab wider than the face should wrap onto its neighbours");
    assert_eq!(locked.len(), 1, "with the face lock on, the dab must stay on a single facet");
    assert!(locked.is_subset(&unlocked), "the locked facet must be one of the unlocked ones");
}

#[test]
fn symmetry_mirrors_the_dab_to_the_other_side() {
    let painted = |axis: Option<SymmetryAxis>| -> std::collections::HashSet<usize> {
        let mut r = headless(256, 256);
        r.set_symmetry(axis);
        let before = active(&r).clone();
        // Off the plane x = 0 on the front, well within its right half.
        let pos = Vec3::new(0.3, -0.1, 0.5);
        let splats = laid(&r, 0, pos, 5.0, [25, 178, 76]);
        let mut d = ScreenDab { hit: Some(touch(0, splats)), mirror: None };
        if let Some(a) = r.brush.symmetry {
            let mut across = pos;
            across[a.index()] = -across[a.index()];
            d.mirror = Some(touch(1, laid(&r, 1, across, 5.0, [25, 178, 76])));
        }
        r.begin_stroke();
        r.stamp_screen(d, INK, &blend, &rub, &no_gpu);
        r.end_stroke();
        changed(&before, active(&r))
    };
    let plain = painted(None);
    let mirrored = painted(Some(SymmetryAxis::X));
    assert!(!plain.is_empty(), "the dab must paint something with symmetry off");
    assert!(plain.is_subset(&mirrored), "symmetry must keep the plain dab and add to it");
    assert!(
        mirrored.len() as f32 > plain.len() as f32 * 1.5,
        "the mirror should roughly double the painted area (plain {}, mirrored {})",
        plain.len(),
        mirrored.len()
    );
}

/// The shown image of the stack: layers over one another, blurred by `blur` texels, then
/// snapped to two tones with a dither pattern where `dither` is set.
fn composite(r: &Renderer<f32>, blur: i64, dither: bool) -> Vec<u8> {
    let n = r.tex_size as i64;
    let mut flat = vec![0u8; (n * n * 4) as usize];
    for layer in &r.layers().layers {
        for i in 0..flat.len() {
            let m = layer.mask.pixels[i / 4 * 4] as u32;
            let a = layer.tex.pixels[i / 4 * 4 + 3] as u32 * m / 255;
            let (d, s) = (flat[i] as u32, layer.tex.pixels[i] as u32);
            let over = match layer.blend {
                BlendMode::Multiply => d * s / 255,
                _ => s,
            };
            flat[i] = ((d * (255 - a) + over * a) / 255) as u8;
        }
    }
    let mut out = flat.clone();
    for y in 0..n {
        for x in 0..n {
            for c in 0..4 {
                let (mut sum, mut count) = (0i64, 0i64);
                for v in (y - blur).max(0)..=(y + blur).min(n - 1) {
                    for u in (x - blur).max(0)..=(x + blur).min(n - 1) {
                        sum += flat[((v * n + u) * 4 + c) as usize] as i64;
                        count += 1;
                    }
                }
                let mut s = sum / count;
                if dither && c < 3 {
                    s = if s + (x % 4) * 8 + (y % 4) * 2 > 128 { 255 } else { 0 };
                }
                out[((y * n + x) * 4 + c) as usize] = s as u8;
            }
        }
    }
    out
}

fn refresh(r: &mut Renderer<f32>, rect: TexRect, full: &Vec<u8>, spread: u32) {
    let (upload, proc) = r.refresh_rects(rect, 4, spread);
    let part = copy_region(full, r.tex_size, proc);
    let packed = r.refresh_display_region(upload, proc, &part);
    assert_eq!(packed, copy_region(full, r.tex_size, upload));
}

fn assert_region_matches_full(r: &mut Renderer<f32>, blur: i64, dither: bool) {
    let before = composite(r, blur, dither);
    r.refresh_display_texture(before);
    let rect = TexRect { x0: 20, y0: 22, x1: 30, y1: 31 };
    let texels = ((rect.x1 - rect.x0) * (rect.y1 - rect.y0)) as usize;
    let stamp: Vec<u8> = [123, 45, 67, 255].repeat(texels);
    r.doc.write_rect(&stamp, rect);
    let full = composite(r, blur, dither);
    let reach = |fx: &Effect<f32>| match fx {
        Effect::Blur { radius } => radius.ceil() as u32,
        _ => 0,
    };
    let spread = r.layers().effect_spread(&|o| o > 0.0, &reach);
    assert_eq!(spread, blur as u32);
    refresh(r, rect, &full, spread);
    assert_eq!(r.display.buf, full, "region refresh diverged from full composite");
}

#[test]
fn region_matches_full_no_palette() {
    let mut r = headless(1, 1);
    assert!(!r.palette_settings.enabled);
    assert_region_matches_full(&mut r, 0, false);
}

#[test]
fn region_matches_full_with_palette_dither() {
    let mut r = headless(1, 1);
    let on = PaletteSettings { enabled: true, dither: true, dither_strength: 0.06 };
    r.set_palette_settings(on, |a, b| a == b);
    assert_region_matches_full(&mut r, 0, true);
}

#[test]
fn region_matches_full_multiply_layer_and_mask() {
    let mut r = headless(1, 1);
    r.add_layer("Layer 2".to_string(), 1.0);
    r.set_layer_blend(1, BlendMode::Multiply);
    let n = r.tex_size;
    let levels = (0..(n * n) as usize).map(|t| ((t * 7) % 256) as u8).collect();
    r.fill_active_mask_from_map(&levels);
    assert_region_matches_full(&mut r, 0, false);
}

#[test]
fn region_matches_full_with_blur_effect() {
    let mut r = headless(1, 1);
    r.add_effect(Effect::Blur { radius: 2.0 });
    assert_region_matches_full(&mut r, 2, false);
}

#[test]
fn real_stroke_flush_matches_full() {
    let mut r = headless(256, 256);
    let on = PaletteSettings { enabled: true, dither: true, dither_strength: 0.06 };
    r.set_palette_settings(on, |a, b| a == b);
    let before = composite(&r, 0, true);
    r.refresh_display_texture(before);
    r.begin_stroke();
    let first = screen_dab(&r, 0, 6.0);
    r.paint_at(first, INK, &blend, &rub, &no_gpu);
    let steps: Vec<Vec<Splat>> = (0..=8)
        .map(|k| {
            let t = k as f32 / 8.0;
            laid(&r, 0, Vec3::new(-0.2 + 0.4 * t, -0.3 + 0.2 * t, 0.5), 6.0, [25, 178, 76])
        })
        .collect();
    let at = |k: u32, n: u32| ScreenDab {
        hit: Some(touch(0, steps[(k * 8 / n) as usize].clone())),
        mirror: None,
    };
    assert_eq!(r.paint_segment(8, &at, INK, &blend, &rub, &no_gpu), 8);
    r.end_stroke();
    assert!(r.display.dirty_rect.is_some(), "stroke never hit the mesh");
    let plan = r.flush_paint();
    assert!(r.display.dirty_rect.is_none(), "flush_paint should consume the dirty rect");
    let full = composite(&r, 0, true);
    refresh(&mut r, plan.cpu.unwrap(), &full, 0);
    assert_eq!(r.display.buf, full, "flushed stroke diverged from full composite");
}

#[test]
fn alpha_tip_shapes_and_inverts_the_dab() {
    // A fully white, fully opaque tip: luma 1 and alpha 1 everywhere.
    let painted = |invert: bool| -> usize {
        let mut r = headless(256, 256);
        r.load_brush_alpha(Ok(())).unwrap();
        r.set_brush_alpha_invert(invert);
        assert_eq!(r.brush.dab_path(false, r.gpu.paint), DabPath::Tip);
        let before = active(&r).clone();
        let mut d = screen_dab(&r, 0, 8.0);
        let luma: f32 = if r.stamp.invert { 0.0 } else { 1.0 };
        if let Some(t) = &mut d.hit {
            t.splats.iter_mut().for_each(|s| s.cov = luma.to_bits());
            t.splats.retain(|s| s.cov > 0);
        }
        r.begin_stroke();
        r.paint_at(d, INK, &blend, &rub, &no_gpu);
        r.end_stroke();
        changed(&before, active(&r)).len()
    };
    assert!(painted(false) > 0, "a fully-white alpha tip must paint its footprint");
    assert_eq!(painted(true), 0, "inverting a fully-white tip drops coverage to zero");
}

/// Coverage that dabs accumulate, as a GPU would.
struct Accumulated {
    cov: RefCell<Vec<f32>>,
    dabs: Vec<Vec<Splat>>,
    size: u32,
}

impl Accumulated {
    fn stamp(&self, id: usize) -> Option<TexRect> {
        let mut cov = self.cov.borrow_mut();
        for s in &self.dabs[id] {
            cov[s.texel] = cov[s.texel].max(f32::from_bits(s.cov));
        }
        let texels: Vec<usize> = self.dabs[id].iter().map(|s| s.texel).collect();
        bounding_rect(&texels, self.size)
    }

    fn read(&self, rect: TexRect) -> Vec<u32> {
        let cov = self.cov.borrow();
        (rect.y0..rect.y1)
            .flat_map(|y| (rect.x0..rect.x1).map(move |x| (x, y)))
            .map(|(x, y)| cov[(y * self.size + x) as usize].to_bits())
            .collect()
    }
}

fn material(texel: usize) -> [u8; 3] {
    [(texel % 251) as u8, (texel % 13) as u8, 7]
}

fn paint(kind: ResolveKind, texel: usize, base: [u8; 4], cov: u32) -> [u8; 4] {
    if f32::from_bits(cov) <= 0.0 {
        return base;
    }
    match kind {
        ResolveKind::Erase => rub(base, [0; 3], cov),
        ResolveKind::Material => blend(base, material(texel), cov),
        ResolveKind::Color(c) => blend(base, c, cov),
    }
}

/// A stroke of nine dabs across the front of the cube, laid on the CPU or stamped.
fn stroke(r: &mut Renderer<f32>, ink: Ink) {
    let size = r.tex_size;
    let image = r.brush.has_image;
    let dabs: Vec<Vec<Splat>> = (0..9)
        .map(|k| {
            let t = k as f32 / 8.0;
            let pos = Vec3::new(-0.2 + 0.4 * t, -0.3 + 0.2 * t, 0.5);
            let mut splats = laid(r, 0, pos, 6.0, ink.color);
            if image {
                splats.iter_mut().for_each(|s| s.src = material(s.texel));
            }
            splats
        })
        .collect();
    let gpu = Accumulated { cov: RefCell::new(vec![0.0; (size * size) as usize]), dabs, size };
    let at = |k: u32, _: u32| ScreenDab {
        hit: Some(Touch {
            tri: 0,
            id: k as usize,
            splats: gpu.dabs[k as usize].clone(),
            faces: vec![0],
        }),
        mirror: None,
    };
    r.begin_stroke();
    r.paint_at(at(0, 8), ink, &blend, &rub, &|id, _| gpu.stamp(id));
    assert_eq!(r.paint_segment(8, &at, ink, &blend, &rub, &|id, _| gpu.stamp(id)), 8);
    let active = r.layers().active;
    match r.finish_gpu_stroke() {
        FinishPlan::Resolve(Some(rect)) => {
            let kind = r.gpu.resolve_kind();
            let base = &r.layers().layers[active].tex.pixels;
            let xs = rect.x0..rect.x1;
            let texels =
                (rect.y0..rect.y1).flat_map(|y| xs.clone().map(move |x| (y * size + x) as usize));
            let px = texels
                .zip(gpu.read(rect))
                .flat_map(|(t, c)| {
                    let b = [base[4 * t], base[4 * t + 1], base[4 * t + 2], base[4 * t + 3]];
                    paint(kind, t, b, c)
                })
                .collect();
            r.finish_gpu_resolve_stroke(Some(px));
        }
        FinishPlan::Drain(Some(rect)) => {
            let kind = r.coverage_kind();
            r.apply_gpu_coverage(&gpu.read(rect), rect, &|t, b, c| paint(kind, t, b, c));
        }
        FinishPlan::Resolve(None) | FinishPlan::Drain(None) => {
            assert!(!r.gpu.paint, "a stamped stroke has a footprint");
        }
    }
}

#[test]
fn stamped_strokes_match_laid_ones() {
    let ink = INK;
    for (target, image, erase) in [
        (PaintTarget::Color, false, false),
        (PaintTarget::Color, false, true),
        (PaintTarget::Color, true, false),
        (PaintTarget::Mask, false, false),
    ] {
        let painted = |paint: bool, display: bool| -> (Vec<u8>, Vec<u8>) {
            let mut r = headless(256, 256);
            r.gpu.paint = paint;
            r.gpu.display = display;
            r.set_paint_target(target);
            r.set_mask_reveal(false);
            if image {
                r.load_brush_material(Ok(())).unwrap();
            }
            stroke(&mut r, Ink { erase, ..ink });
            assert!(r.stroke_dirty);
            r.end_stroke();
            let layer = &r.layers().layers[0];
            (layer.tex.pixels.clone(), layer.mask.pixels.clone())
        };
        let laid = painted(false, false);
        assert_eq!(painted(true, false), laid, "{target:?} {image} {erase}: read back");
        assert_eq!(painted(true, true), laid, "{target:?} {image} {erase}: resolved");
    }
}

#[test]
fn the_mirror_is_synced_after_a_gpu_stroke() {
    for target in [PaintTarget::Color, PaintTarget::Mask] {
        let mut r = headless(256, 256);
        r.gpu.paint = true;
        r.gpu.display = true;
        r.set_paint_target(target);
        r.set_mask_reveal(false);
        let before = composite(&r, 0, false);
        r.refresh_display_texture(before);
        let version = r.paint_version();
        stroke(&mut r, INK);
        let end = r.end_stroke();
        let full = composite(&r, 0, false);
        refresh(&mut r, end.resync.unwrap(), &full, 0);
        assert_ne!(r.paint_version(), version, "the UV editor must learn of the stroke");
        assert_eq!(r.atlas_view(), (r.tex_size, &full), "the mirror fell behind");
    }
}

#[test]
fn uv_strokes_update_the_mirror_midstroke() {
    let mut r = headless(256, 256);
    r.gpu.paint = true;
    r.gpu.display = true;
    let before = composite(&r, 0, false);
    r.refresh_display_texture(before.clone());
    let version = r.paint_version();
    r.begin_stroke();
    let at = |k: u32, n: u32| {
        let t = (r.tex_size * k / n) as usize;
        vec![Splat { texel: t * r.tex_size as usize / 2, cov: 1f32.to_bits(), src: [230, 38, 51] }]
    };
    let splats: Vec<Vec<Splat>> = (0..=8).map(|k| at(k, 9)).collect();
    r.paint_uv_segment(8, &|k, _| splats[k as usize].clone(), false, &blend, &rub);
    let plan = r.flush_paint();
    assert!(plan.gpu, "the model shows the stroke too");
    let full = composite(&r, 0, false);
    refresh(&mut r, plan.cpu.unwrap(), &full, 0);
    assert_ne!(r.paint_version(), version);
    assert_ne!(r.display.buf, before, "the stroke is visible before it ends");
    assert_eq!(r.display.buf, full);
}
