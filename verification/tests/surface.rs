use lowtex::mesh::{Mesh, SourceTransform, Vertex};
use lowtex::surface::Adjacency;

/// A cube with its own four corners per face, on a grid of 10000 ticks per unit.
fn cube() -> Mesh<i32> {
    let h = 5000;
    let faces = [
        [[-h, -h, h], [h, -h, h], [h, h, h], [-h, h, h]],
        [[h, -h, -h], [-h, -h, -h], [-h, h, -h], [h, h, -h]],
        [[h, -h, h], [h, -h, -h], [h, h, -h], [h, h, h]],
        [[-h, -h, -h], [-h, -h, h], [-h, h, h], [-h, h, -h]],
        [[-h, h, h], [h, h, h], [h, h, -h], [-h, h, -h]],
        [[-h, -h, -h], [h, -h, -h], [h, -h, h], [-h, -h, h]],
    ];
    let mut vertices = Vec::new();
    let mut indices = Vec::new();
    for (f, corners) in faces.iter().enumerate() {
        for position in corners {
            vertices.push(Vertex { position: *position, normal: [0, 0, 0], uv: [0, 0] });
        }
        let b = 4 * f as u32;
        indices.extend_from_slice(&[b, b + 1, b + 2, b, b + 2, b + 3]);
    }
    let source_transform = SourceTransform { scale: 1, offset: [0; 3] };
    Mesh { vertices, indices, needs_normals: false, needs_uvs: false, source_transform }
}

#[test]
fn cube_is_a_closed_manifold() {
    let mesh = cube();
    let adj = Adjacency::build(&mesh);
    assert_eq!(adj.neighbors().len(), 12);
    for (ti, nb) in adj.neighbors().iter().enumerate() {
        for (e, &n) in nb.iter().enumerate() {
            assert!(n >= 0, "tri {ti} edge {e} should have a neighbour");
            let back = adj.neighbors()[n as usize];
            assert!(back.contains(&(ti as i32)), "adjacency must be symmetric");
        }
    }
}
