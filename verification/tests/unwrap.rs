//! The unwrap, from a mesh with float positions to atlas coordinates.

use glam::{Mat2, Vec2, Vec3};
use lowtex::atlas::{auto_unwrap, unwrap_impl, Shapes, Unwrapping};
use lowtex::mesh::{Mesh, SourceTransform, Vertex};
use lowtex::pick::{chart_rectify, diameter, register};
use lowtex::skyline::skyline_pack;
use lowtex::slots::dist_key;
use lowtex::unwrap::{dedup_verts, Density, UnwrapOptions, UnwrapResult, WeldKey};

/// A map of one chart onto another: `lin * (p - from) + to`.
type Remap = (Mat2, Vec2, Vec2);

/// The charts in their tangent planes.
struct Plane {
    proj: Vec<[Vec2; 3]>,
    cmin: Vec<Vec2>,
    csize: Vec<Vec2>,
    verts: Vec<Vec<Vec2>>,
}

/// What the unwrap measures on a mesh.
struct Geometry {
    positions: Vec<[Vec3; 3]>,
    normals: Vec<Vec3>,
    areas: Vec<f32>,
    diagonal: f32,
    opts: UnwrapOptions<f32>,
}

fn options() -> UnwrapOptions<f32> {
    UnwrapOptions::with_cone(40.0)
}

fn overlap_opts() -> UnwrapOptions<f32> {
    let mut opts = options();
    opts.overlap_identical = true;
    opts
}

fn tri_area(p: [Vec3; 3]) -> f32 {
    0.5 * (p[1] - p[0]).cross(p[2] - p[0]).length()
}

fn rot_between(from: Vec2, to: Vec2) -> Mat2 {
    let c = from.dot(to);
    let s = from.perp_dot(to);
    Mat2::from_cols(Vec2::new(c, s), Vec2::new(-s, c))
}

fn align(r: &[Vec2], m: &[Vec2], tol: f32) -> Option<Remap> {
    let (ri, rj) = diameter(r.len(), &|i, j| r[i].distance_squared(r[j]).to_bits())?;
    let (mi, mj) = diameter(m.len(), &|i, j| m[i].distance_squared(m[j]).to_bits())?;
    let dir_r = (r[rj] - r[ri]).normalize();
    let map = |swapped: bool, mirror: bool| -> Remap {
        let (ma, mb) = if swapped { (mj, mi) } else { (mi, mj) };
        let to_x = rot_between((m[mb] - m[ma]).normalize(), Vec2::X);
        let refl = if mirror {
            Mat2::from_cols(Vec2::new(1.0, 0.0), Vec2::new(0.0, -1.0))
        } else {
            Mat2::IDENTITY
        };
        (rot_between(Vec2::X, dir_r) * refl * to_x, m[ma], r[ri])
    };
    let (swapped, mirror) = register(&|swapped, mirror| {
        let (lin, from, to) = map(swapped, mirror);
        m.iter().all(|&p| {
            let q = lin * (p - from) + to;
            r.iter().any(|&rp| rp.distance_squared(q) <= tol * tol)
        })
    })?;
    Some(map(swapped, mirror))
}

impl Geometry {
    fn new(mesh: &Mesh<f32>, opts: UnwrapOptions<f32>) -> Geometry {
        let positions: Vec<[Vec3; 3]> = mesh
            .indices
            .chunks_exact(3)
            .map(|t| [0, 1, 2].map(|k| Vec3::from(mesh.vertices[t[k] as usize].position)))
            .collect();
        let mut min = Vec3::splat(f32::INFINITY);
        let mut max = Vec3::splat(f32::NEG_INFINITY);
        for v in &mesh.vertices {
            min = min.min(Vec3::from(v.position));
            max = max.max(Vec3::from(v.position));
        }
        Geometry {
            normals: positions
                .iter()
                .map(|p| (p[1] - p[0]).cross(p[2] - p[0]).normalize_or_zero())
                .collect(),
            areas: positions.iter().map(|p| tri_area(*p)).collect(),
            positions,
            diagonal: (max - min).length(),
            opts,
        }
    }

    fn keys(&self, mesh: &Mesh<f32>) -> Vec<WeldKey> {
        let inv = 1.0 / (self.diagonal * 1e-5).max(1e-6) as f64;
        let tick = |x: f32| (x as f64 * inv).round() as i64;
        mesh.vertices
            .iter()
            .map(|v| (tick(v.position[0]), tick(v.position[1]), tick(v.position[2])))
            .collect()
    }

    fn joins(&self, seed: usize, t: usize) -> bool {
        let cos_cone = self.opts.angle_cone_deg.to_radians().cos();
        let (seed_n, n) = (self.normals[seed], self.normals[t]);
        n.length_squared() < 1e-12
            || (seed_n.length_squared() > 1e-12 && seed_n.dot(n) >= cos_cone)
    }

    fn match_eps(&self) -> f32 {
        (self.diagonal * 1e-4).max(1e-6)
    }

    fn shape(&self, chart_of: &Vec<usize>, charts: &Vec<Vec<usize>>) -> Shapes<Plane> {
        let bases: Vec<(Vec3, Vec3)> = charts
            .iter()
            .map(|members| {
                let acc: Vec3 = members.iter().map(|&t| self.normals[t] * self.areas[t]).sum();
                let n = if acc.length_squared() > 1e-20 {
                    acc.normalize()
                } else {
                    self.normals[members[0]]
                };
                let up = if n.y.abs() < 0.99 { Vec3::Y } else { Vec3::X };
                let t = up.cross(n).normalize_or_zero();
                (t, n.cross(t))
            })
            .collect();
        let mut proj: Vec<[Vec2; 3]> = (0..self.positions.len())
            .map(|ti| {
                let (u, v) = bases[chart_of[ti]];
                self.positions[ti].map(|p| Vec2::new(p.dot(u), p.dot(v)))
            })
            .collect();
        let mut tris: Vec<Vec<usize>> = vec![Vec::new(); charts.len()];
        for (ti, &c) in chart_of.iter().enumerate() {
            tris[c].push(ti);
        }
        if self.opts.rectifies() {
            self.rectify(&mut proj, &tris);
        }
        let mut cmin = vec![Vec2::splat(f32::INFINITY); charts.len()];
        let mut cmax = vec![Vec2::splat(f32::NEG_INFINITY); charts.len()];
        for (ti, &c) in chart_of.iter().enumerate() {
            for q in &proj[ti] {
                cmin[c] = cmin[c].min(*q);
                cmax[c] = cmax[c].max(*q);
            }
        }
        let csize = (0..charts.len())
            .map(|c| (cmax[c] - cmin[c]).max(Vec2::splat(1e-6)))
            .collect();
        let eps = self.match_eps();
        let verts: Vec<Vec<Vec2>> = tris
            .iter()
            .map(|ts| {
                let pts: Vec<Vec2> = ts.iter().flat_map(|&ti| proj[ti]).collect();
                let keys = pts
                    .iter()
                    .map(|p| ((p.x / eps).round() as i64, (p.y / eps).round() as i64))
                    .collect();
                dedup_verts(&keys).iter().map(|&i| pts[i]).collect()
            })
            .collect();
        let keys = verts
            .iter()
            .map(|v| {
                let mut dists = Vec::new();
                for i in 0..v.len() {
                    for j in i + 1..v.len() {
                        dists.push((v[i].distance(v[j]) / (eps * 10.0)).round() as i64);
                    }
                }
                dist_key(v.len(), dists)
            })
            .collect();
        Shapes {
            verts: verts.iter().map(|v| v.len()).collect(),
            keys,
            data: Plane { proj, cmin, csize, verts },
        }
    }

    fn rectify(&self, proj: &mut Vec<[Vec2; 3]>, tris: &Vec<Vec<usize>>) {
        let turned = |p: Vec2, d: Vec2| Vec2::new(p.dot(d), -p.x * d.y + p.y * d.x);
        let edge = |proj: &Vec<[Vec2; 3]>, ti: usize, e: usize| -> Option<Vec2> {
            let d = proj[ti][(e + 1) % 3] - proj[ti][e];
            if d.length() < 1e-9 { None } else { Some(d / d.length()) }
        };
        let areas: Vec<Vec<Option<u32>>> = tris
            .iter()
            .map(|ts| {
                ts.iter()
                    .flat_map(|&ti| [0, 1, 2].map(|e| (ti, e)))
                    .map(|(ti, e)| {
                        let d = edge(proj, ti, e)?;
                        let (mut mn, mut mx) =
                            (Vec2::splat(f32::INFINITY), Vec2::splat(f32::NEG_INFINITY));
                        for &tj in ts {
                            for &p in &proj[tj] {
                                mn = mn.min(turned(p, d));
                                mx = mx.max(turned(p, d));
                            }
                        }
                        Some(((mx.x - mn.x) * (mx.y - mn.y)).to_bits())
                    })
                    .collect()
            })
            .collect();
        for (c, best) in chart_rectify(&areas).iter().enumerate() {
            if let Some(i) = best {
                let d = edge(proj, tris[c][i / 3], i % 3).unwrap();
                for &ti in &tris[c] {
                    proj[ti] = proj[ti].map(|p| turned(p, d));
                }
            }
        }
    }

    fn density(&self, p: &Plane, reps: &Vec<usize>) -> f32 {
        let area: f32 = reps.iter().map(|&c| p.csize[c].x * p.csize[c].y).sum();
        let base =
            0.65f32.sqrt() * self.opts.target_atlas_px as f32 / area.max(1e-6).sqrt();
        let times = match self.opts.density {
            Density::Low => 0.5,
            Density::Medium => 1.0,
            Density::High => 2.0,
        };
        base * times
    }

    fn boxes(&self, p: &Plane, reps: &Vec<usize>, d: f32) -> Vec<(u32, u32)> {
        let most = u32::MAX - 2 * self.opts.gutter_px;
        let side = |x: f32| ((x * d).ceil() as u32).min(most);
        reps.iter().map(|&c| (side(p.csize[c].x), side(p.csize[c].y))).collect()
    }

    fn place(
        &self,
        p: &Plane,
        ti: usize,
        c: usize,
        onto: Option<(usize, Remap)>,
        offset: (u64, u64),
        d: f32,
        atlas: u32,
    ) -> [[f32; 2]; 3] {
        p.proj[ti].map(|q| {
            let r = match onto {
                None => q - p.cmin[c],
                Some((rep, (lin, from, to))) => lin * q + (to - p.cmin[rep] - lin * from),
            };
            let mut local = r * d;
            if self.opts.snap_texels {
                local = local.round();
            }
            let g = Vec2::splat(self.opts.gutter_px as f32);
            let px = local + Vec2::new(offset.0 as f32, offset.1 as f32) + g;
            (px * (1.0 / atlas as f32)).to_array()
        })
    }
}

fn unwrapped(mesh: &Mesh<f32>, opts: UnwrapOptions<f32>) -> UnwrapResult<f32> {
    let g = Geometry::new(mesh, opts);
    auto_unwrap(
        mesh,
        &g.keys(mesh),
        &g.opts,
        1.0,
        |s, t| g.joins(s, t),
        &|of: &Vec<usize>, charts: &Vec<Vec<usize>>| g.shape(of, charts),
        &|p: &Plane, rep, c| align(&p.verts[rep], &p.verts[c], g.match_eps() * 10.0),
        &|p: &Plane, reps: &Vec<usize>| g.density(p, reps),
        &|d| d > 0.0,
        &|p: &Plane, reps: &Vec<usize>, d| g.boxes(p, reps, d),
        &|d, atlas, extent| d * (atlas as f32 / extent as f32),
        &|p: &Plane, ti, c, onto, offset, d, atlas| g.place(p, ti, c, onto, offset, d, atlas),
    )
}

fn charted(mesh: &Mesh<f32>, opts: UnwrapOptions<f32>) -> Unwrapping<f32, Plane, Remap> {
    let g = Geometry::new(mesh, opts);
    unwrap_impl(
        mesh,
        &g.keys(mesh),
        &g.opts,
        |s, t| g.joins(s, t),
        &|of: &Vec<usize>, charts: &Vec<Vec<usize>>| g.shape(of, charts),
        &|p: &Plane, rep, c| align(&p.verts[rep], &p.verts[c], g.match_eps() * 10.0),
        &|p: &Plane, reps: &Vec<usize>| g.density(p, reps),
        &|d| d > 0.0,
        &|p: &Plane, reps: &Vec<usize>, d| g.boxes(p, reps, d),
        &|d, atlas, extent| d * (atlas as f32 / extent as f32),
        &|p: &Plane, ti, c, onto, offset, d, atlas| g.place(p, ti, c, onto, offset, d, atlas),
    )
}

fn mesh_of(vertices: Vec<Vertex<f32>>) -> Mesh<f32> {
    Mesh {
        indices: (0..vertices.len() as u32).collect(),
        vertices,
        needs_normals: false,
        needs_uvs: false,
        source_transform: SourceTransform { scale: 1.0, offset: [0.0; 3] },
    }
}

fn flat(x: f32, y: f32) -> Vertex<f32> {
    Vertex { position: [x, y, 0.0], normal: [0.0, 0.0, 1.0], uv: [0.0, 0.0] }
}

fn quad(x0: f32) -> Vec<Vertex<f32>> {
    vec![
        flat(x0, 0.0),
        flat(x0 + 1.0, 0.0),
        flat(x0 + 1.0, 1.0),
        flat(x0, 0.0),
        flat(x0 + 1.0, 1.0),
        flat(x0, 1.0),
    ]
}

fn two_separate_quads() -> Mesh<f32> {
    let mut vertices = quad(0.0);
    vertices.extend(quad(5.0));
    mesh_of(vertices)
}

fn cube() -> Mesh<f32> {
    let h = 0.5;
    let faces = [
        [[-h, -h, h], [h, -h, h], [h, h, h], [-h, h, h]],
        [[h, -h, -h], [-h, -h, -h], [-h, h, -h], [h, h, -h]],
        [[h, -h, h], [h, -h, -h], [h, h, -h], [h, h, h]],
        [[-h, -h, -h], [-h, -h, h], [-h, h, h], [-h, h, -h]],
        [[-h, h, h], [h, h, h], [h, h, -h], [-h, h, -h]],
        [[-h, -h, -h], [h, -h, -h], [h, -h, h], [-h, -h, h]],
    ];
    let mut vertices = Vec::new();
    for c in faces {
        for k in [0, 1, 2, 0, 2, 3] {
            vertices.push(Vertex { position: c[k], normal: [0.0, 0.0, 1.0], uv: [0.0, 0.0] });
        }
    }
    mesh_of(vertices)
}

fn assert_uvs_in_unit(mesh: &Mesh<f32>) {
    for v in &mesh.vertices {
        for c in v.uv {
            assert!((-1e-4..=1.0 + 1e-4).contains(&c), "uv out of range: {:?}", v.uv);
        }
    }
}

fn pixel_bboxes(mesh: &Mesh<f32>, atlas: u32) -> Vec<(Vec2, Vec2)> {
    mesh.indices
        .chunks_exact(3)
        .map(|t| {
            let uvs = [0, 1, 2].map(|k| Vec2::from(mesh.vertices[t[k] as usize].uv) * atlas as f32);
            (
                uvs[0].min(uvs[1]).min(uvs[2]),
                uvs[0].max(uvs[1]).max(uvs[2]),
            )
        })
        .collect()
}

fn disjoint(a: (Vec2, Vec2), b: (Vec2, Vec2)) -> bool {
    a.1.x <= b.0.x + 1e-3
        || b.1.x <= a.0.x + 1e-3
        || a.1.y <= b.0.y + 1e-3
        || b.1.y <= a.0.y + 1e-3
}

#[test]
fn unwrap_preserves_smooth_vertex_normals() {
    let n = [
        Vec3::new(0.0, 0.6, 0.8).normalize(),
        Vec3::new(0.6, 0.0, 0.8).normalize(),
        Vec3::new(-0.4, -0.4, 0.82).normalize(),
    ];
    let pos = [[0.0, 0.0, 0.0], [1.0, 0.0, 0.0], [0.0, 1.0, 0.0]];
    let mesh = mesh_of(
        (0..3)
            .map(|i| Vertex { position: pos[i], normal: n[i].to_array(), uv: [0.0, 0.0] })
            .collect(),
    );
    let r = unwrapped(&mesh, options());
    assert_eq!(r.mesh.vertices.len(), 3);
    for (out, want) in r.mesh.vertices.iter().zip(n) {
        let got = Vec3::from(out.normal);
        assert!(got.distance(want) < 1e-5, "normal {got} should be {want}");
    }
}

#[test]
fn auto_unwrap_uvs_in_unit() {
    let r = unwrapped(&cube(), options());
    assert_eq!(r.mesh.vertices.len(), 36);
    assert!(!r.mesh.needs_uvs);
    assert!(r.atlas_size >= 8 && r.atlas_size.is_power_of_two());
    assert_uvs_in_unit(&r.mesh);
}

#[test]
fn the_source_transform_is_kept() {
    let source = SourceTransform { scale: 2.5, offset: [1.0, 2.0, 3.0] };
    let mesh = Mesh { source_transform: source, ..cube() };
    assert_eq!(unwrapped(&mesh, options()).mesh.source_transform, source);
    let empty = Mesh { vertices: vec![], indices: vec![], ..mesh };
    assert_eq!(unwrapped(&empty, options()).mesh.source_transform, source);
}

#[test]
fn an_empty_mesh_has_an_atlas_of_a_size_allowed() {
    let empty = mesh_of(Vec::new());
    let atlas = |target_atlas_px: u32, max_atlas: u32| {
        let opts = UnwrapOptions { target_atlas_px, max_atlas, ..options() };
        unwrapped(&empty, opts).atlas_size
    };
    assert_eq!(atlas(100, 8192), 128);
    assert_eq!(atlas(128, 64), 64);
    assert_eq!(atlas(128, 8192), 128);
}

#[test]
fn packing_fills_the_atlas() {
    for mesh in [cube(), two_separate_quads()] {
        let r = unwrapped(&mesh, options());
        let (mut mn, mut mx) = (Vec2::splat(f32::INFINITY), Vec2::splat(f32::NEG_INFINITY));
        for v in &r.mesh.vertices {
            let uv = Vec2::from(v.uv);
            mn = mn.min(uv);
            mx = mx.max(uv);
        }
        let span = mx - mn;
        assert!(span.x.max(span.y) >= 0.9, "layout leaves the atlas mostly blank: {span:?}");
        let bb = pixel_bboxes(&r.mesh, r.atlas_size);
        let covered: f32 = bb.iter().map(|(a, b)| (b.x - a.x) * (b.y - a.y)).sum();
        let frac = covered / (r.atlas_size * r.atlas_size) as f32;
        assert!(frac >= 0.4, "atlas only {:.0}% covered", frac * 100.0);
    }
}

#[test]
fn disconnected_same_normal_parts_get_separate_charts() {
    let u = charted(&two_separate_quads(), options());
    let charts: std::collections::HashSet<usize> = u.chart_of.iter().copied().collect();
    assert!(charts.len() >= 2, "separate quads collapsed into one chart");
    assert_ne!(u.chart_of[0], u.chart_of[2]);
    let bb = pixel_bboxes(&u.mesh, u.packing.atlas);
    for a in [0usize, 1] {
        for b in [2usize, 3] {
            assert!(disjoint(bb[a], bb[b]), "charts overlap: {:?} {:?}", bb[a], bb[b]);
        }
    }
    assert_uvs_in_unit(&u.mesh);
}

#[test]
fn overlap_stacks_identical_charts() {
    let r = unwrapped(&two_separate_quads(), overlap_opts());
    assert_uvs_in_unit(&r.mesh);
    let bb = pixel_bboxes(&r.mesh, r.atlas_size);
    for a in [0usize, 1] {
        for b in [2usize, 3] {
            assert!(!disjoint(bb[a], bb[b]), "stacked charts should overlap");
        }
    }
    assert!((bb[0].0 - bb[2].0).length() < 1.0 && (bb[0].1 - bb[2].1).length() < 1.0);
    let single = unwrapped(&mesh_of(quad(0.0)), overlap_opts());
    assert!(r.atlas_size <= single.atlas_size);
}

#[test]
fn overlap_collapses_cube_faces() {
    let r = unwrapped(&cube(), overlap_opts());
    assert_uvs_in_unit(&r.mesh);
    let bb = pixel_bboxes(&r.mesh, r.atlas_size);
    let first = bb[0];
    for (i, b) in bb.iter().enumerate() {
        assert!(
            (b.0 - first.0).length() < 1.0 && (b.1 - first.1).length() < 1.0,
            "cube tri {i} bbox {b:?} differs from {first:?}"
        );
    }
}

#[test]
fn overlap_stacks_mirror_images() {
    let mesh = mesh_of(vec![
        flat(0.0, 0.0),
        flat(2.0, 0.0),
        flat(0.0, 1.0),
        flat(5.0, 0.0),
        flat(5.0, -1.0),
        flat(7.0, 0.0),
    ]);
    let off = unwrapped(&mesh, options());
    let obb = pixel_bboxes(&off.mesh, off.atlas_size);
    assert!(disjoint(obb[0], obb[1]), "without overlap, mirror charts must not stack");
    let r = unwrapped(&mesh, overlap_opts());
    assert_uvs_in_unit(&r.mesh);
    let bb = pixel_bboxes(&r.mesh, r.atlas_size);
    assert!(!disjoint(bb[0], bb[1]), "mirror charts should stack");
    assert!((bb[0].0 - bb[1].0).length() < 1.5 && (bb[0].1 - bb[1].1).length() < 1.5);
}

#[test]
fn welding_recovers_adjacency() {
    let u = charted(&cube(), options());
    let charts: std::collections::HashSet<usize> = u.chart_of.iter().copied().collect();
    assert_eq!(charts.len(), 6, "expected 6 charts, got {}", charts.len());
    for c in charts {
        let n = u.chart_of.iter().filter(|&&x| x == c).count();
        assert_eq!(n, 2, "chart {c} has {n} tris, expected 2");
    }
}

#[test]
fn constant_density_within_cone_bound() {
    let mut opts = options();
    opts.snap_texels = false;
    let cos2 = opts.angle_cone_deg.to_radians().cos().powi(2);
    let r = unwrapped(&cube(), opts);
    let d2 = r.density_d * r.density_d;
    for t in r.mesh.indices.chunks_exact(3) {
        let p = [0, 1, 2].map(|k| Vec3::from(r.mesh.vertices[t[k] as usize].position));
        let uv = [0, 1, 2]
            .map(|k| Vec2::from(r.mesh.vertices[t[k] as usize].uv) * r.atlas_size as f32);
        let uv_area = 0.5 * (uv[1] - uv[0]).perp_dot(uv[2] - uv[0]).abs();
        let ratio = uv_area / tri_area(p);
        assert!(
            ratio >= d2 * cos2 - 1.0 && ratio <= d2 + 1.0,
            "density ratio {ratio} outside [{}, {}]",
            d2 * cos2,
            d2
        );
    }
}

#[test]
fn atlas_within_max() {
    let mut opts = options();
    opts.max_atlas = 64;
    opts.target_atlas_px = 128;
    let r = unwrapped(&cube(), opts);
    assert!(r.atlas_size <= 64, "atlas {} exceeded max", r.atlas_size);
    assert!(r.clamped, "expected density to be clamped");
    assert_uvs_in_unit(&r.mesh);
}

#[test]
fn explicit_density_is_honored_exactly() {
    let mut opts = options();
    opts.target_density = Some(50.0);
    let r = unwrapped(&cube(), opts);
    assert!(!r.clamped, "50 texels/unit should fit the default max atlas");
    assert!((r.density_d - 50.0).abs() < 1e-3, "density {} != 50", r.density_d);
    assert!(r.atlas_size.is_power_of_two(), "atlas not a power of two");
    assert_uvs_in_unit(&r.mesh);
}

#[test]
fn explicit_density_clamps_when_too_dense() {
    let mut opts = options();
    opts.target_density = Some(100_000.0);
    opts.max_atlas = 64;
    let r = unwrapped(&cube(), opts);
    assert!(r.clamped, "an impossible density should clamp");
    assert!(r.atlas_size <= 64, "atlas {} exceeded max", r.atlas_size);
    assert!(r.density_d < 100_000.0, "clamped density not reduced");
    assert_uvs_in_unit(&r.mesh);
}

#[test]
fn single_triangle_and_empty() {
    let tri = mesh_of(vec![flat(0.0, 0.0), flat(1.0, 0.0), flat(0.0, 1.0)]);
    let r = unwrapped(&tri, options());
    assert_eq!(r.mesh.vertices.len(), 3);
    assert_uvs_in_unit(&r.mesh);

    let r = unwrapped(&mesh_of(vec![]), options());
    assert_eq!(r.mesh.vertices.len(), 0);
    assert!(r.atlas_size >= 8);
}

#[test]
fn snapped_uvs_land_on_texel_boundaries() {
    let r = unwrapped(&cube(), options());
    for v in &r.mesh.vertices {
        for px in v.uv.map(|c| c * r.atlas_size as f32) {
            assert!((px - px.round()).abs() < 1e-3, "vertex UV at {px} px is off the grid");
        }
    }
}

#[test]
fn rectify_squares_faces_to_their_sides_not_diagonals() {
    let r = unwrapped(&cube(), options());
    let atlas = r.atlas_size as f32;
    for t in r.mesh.indices.chunks_exact(3) {
        let uv = [0, 1, 2].map(|k| Vec2::from(r.mesh.vertices[t[k] as usize].uv) * atlas);
        let axis_aligned = (0..3)
            .filter(|&e| {
                let d = uv[(e + 1) % 3] - uv[e];
                d.x.abs() < 1e-3 || d.y.abs() < 1e-3
            })
            .count();
        assert!(axis_aligned >= 2, "face triangle is not axis-aligned: {uv:?}");
    }
}

#[test]
fn skyline_packs_tightly_without_overlap() {
    let csize: [(u32, u32); 8] =
        [(10, 30), (20, 5), (8, 8), (15, 22), (5, 12), (25, 6), (12, 18), (7, 7)];
    let (offsets, w, h) = skyline_pack(&csize, 0);
    for i in 0..csize.len() {
        for j in i + 1..csize.len() {
            let overlap = offsets[i].0 < offsets[j].0 + csize[j].0 as u64
                && offsets[j].0 < offsets[i].0 + csize[i].0 as u64
                && offsets[i].1 < offsets[j].1 + csize[j].1 as u64
                && offsets[j].1 < offsets[i].1 + csize[i].1 as u64;
            assert!(!overlap, "boxes {i} and {j} overlap");
        }
    }
    let used: u64 = csize.iter().map(|s| s.0 as u64 * s.1 as u64).sum();
    let frac = used as f32 / (w * h) as f32;
    assert!(frac >= 0.75, "skyline only {:.0}% efficient", frac * 100.0);
}

#[test]
fn snapping_keeps_faces_non_degenerate() {
    let r = unwrapped(&cube(), options());
    for (lo, hi) in pixel_bboxes(&r.mesh, r.atlas_size) {
        assert!(
            hi.x - lo.x >= 1.0 - 1e-3 && hi.y - lo.y >= 1.0 - 1e-3,
            "a face snapped down to a sub-texel sliver: {lo:?}..{hi:?}"
        );
    }
}
