//! Triangle meshes, generic in their coordinate type.
//!
//! The library reads connectivity and moves coordinates about; it never computes with
//! them. Positions on the integer grid that the topology is keyed on are a `Mesh<i32>`.

use vstd::prelude::*;

verus! {

/// One mesh corner.
#[derive(Clone, Copy, Debug)]
pub struct Vertex<F> {
    pub position: [F; 3],
    pub normal: [F; 3],
    pub uv: [F; 2],
}

/// Takes positions back to the coordinates of the model they were imported from: scaled, then
/// moved.
#[derive(Clone, Copy, Debug, PartialEq)]
pub struct SourceTransform<F> {
    pub scale: F,
    pub offset: [F; 3],
}

/// An indexed triangle list. Indices past the last whole triangle are ignored.
#[derive(Clone, Debug)]
pub struct Mesh<F> {
    pub vertices: Vec<Vertex<F>>,
    pub indices: Vec<u32>,
    pub needs_normals: bool,
    pub needs_uvs: bool,
    pub source_transform: SourceTransform<F>,
}

impl<F> Mesh<F> {
    pub open spec fn tri_count_spec(&self) -> int {
        self.indices.len() as int / 3
    }

    /// Every index names a vertex.
    pub open spec fn wf(&self) -> bool {
        forall|k: int|
            0 <= k < self.indices.len() ==> (#[trigger] self.indices@[k]) < self.vertices.len()
    }

    /// The vertex at corner slot `h`; triangle `t` has the slots `3t`, `3t + 1`, `3t + 2`.
    pub open spec fn corner(&self, h: int) -> Vertex<F> {
        self.vertices@[self.indices@[h] as int]
    }

    /// How many whole triangles the mesh has.
    pub fn tri_count(&self) -> (n: usize)
        ensures
            n == self.tri_count_spec(),
    {
        self.indices.len() / 3
    }
}

/// The slot after `h` going around its triangle.
pub open spec fn next_slot(h: int) -> int {
    if h % 3 == 2 {
        h - 2
    } else {
        h + 1
    }
}

/// The positions and UVs of triangle `ti`.
pub fn tri_data<F: Copy>(mesh: &Mesh<F>, ti: u32) -> (data: ([[F; 3]; 3], [[F; 2]; 3]))
    requires
        mesh.wf(),
        ti < mesh.tri_count_spec(),
        3 * ti + 2 <= u32::MAX,
    ensures
        forall|k: int|
            0 <= k < 3 ==> #[trigger] data.0[k] == mesh.corner(3 * ti + k).position && data.1[k]
                == mesh.corner(3 * ti + k).uv,
{
    let i: usize = (ti * 3) as usize;
    let a = mesh.vertices[mesh.indices[i] as usize];
    let b = mesh.vertices[mesh.indices[i + 1] as usize];
    let c = mesh.vertices[mesh.indices[i + 2] as usize];
    ([a.position, b.position, c.position], [a.uv, b.uv, c.uv])
}

/// One triangle with its own corners: positions, normals and UVs.
#[derive(Clone, Copy, Debug)]
pub struct SplitTri<F> {
    pub positions: [[F; 3]; 3],
    pub normals: [[F; 3]; 3],
    pub uvs: [[F; 2]; 3],
}

/// Builds a mesh in which no two triangles share a vertex: three vertices per triangle, in
/// order. Normals are carried per corner, so smooth shading survives.
pub fn build_split<F: Copy>(tris: &Vec<SplitTri<F>>, source: SourceTransform<F>) -> (mesh: Mesh<F>)
    requires
        3 * tris.len() <= u32::MAX,
    ensures
        mesh.wf(),
        mesh.vertices.len() == 3 * tris.len(),
        mesh.indices.len() == 3 * tris.len(),
        forall|h: int| 0 <= h < mesh.indices.len() ==> #[trigger] mesh.indices@[h] == h,
        forall|h: int|
            0 <= h < mesh.vertices.len() ==> {
                let v = #[trigger] mesh.vertices@[h];
                &&& v.position == tris@[h / 3].positions[h % 3]
                &&& v.normal == tris@[h / 3].normals[h % 3]
                &&& v.uv == tris@[h / 3].uvs[h % 3]
            },
        !mesh.needs_normals,
        !mesh.needs_uvs,
        mesh.source_transform == source,
{
    let mut vertices: Vec<Vertex<F>> = Vec::new();
    let mut indices: Vec<u32> = Vec::new();
    let n: usize = tris.len();
    let mut t: usize = 0;
    while t < n
        invariant
            n == tris.len(),
            3 * n <= u32::MAX,
            t <= n,
            vertices.len() == 3 * t,
            indices.len() == 3 * t,
            forall|h: int| 0 <= h < indices.len() ==> #[trigger] indices@[h] == h,
            forall|h: int|
                0 <= h < vertices.len() ==> {
                    let v = #[trigger] vertices@[h];
                    &&& v.position == tris@[h / 3].positions[h % 3]
                    &&& v.normal == tris@[h / 3].normals[h % 3]
                    &&& v.uv == tris@[h / 3].uvs[h % 3]
                },
        decreases n - t,
    {
        let mut e: usize = 0;
        while e < 3
            invariant
                n == tris.len(),
                3 * n <= u32::MAX,
                t < n,
                e <= 3,
                vertices.len() == 3 * t + e,
                indices.len() == 3 * t + e,
                forall|h: int| 0 <= h < indices.len() ==> #[trigger] indices@[h] == h,
                forall|h: int|
                    0 <= h < vertices.len() ==> {
                        let v = #[trigger] vertices@[h];
                        &&& v.position == tris@[h / 3].positions[h % 3]
                        &&& v.normal == tris@[h / 3].normals[h % 3]
                        &&& v.uv == tris@[h / 3].uvs[h % 3]
                    },
            decreases 3 - e,
        {
            let tri = tris[t];
            indices.push((3 * t + e) as u32);
            vertices.push(
                Vertex {
                    position: tri.positions[e],
                    normal: tri.normals[e],
                    uv: tri.uvs[e],
                },
            );
            assert((3 * t + e) / 3 == t && (3 * t + e) % 3 == e);
            e += 1;
        }
        t += 1;
    }
    Mesh {
        vertices,
        indices,
        needs_normals: false,
        needs_uvs: false,
        source_transform: source,
    }
}

/// The UV wireframe: for every triangle its three edges as `[u0, v0, u1, v1]`.
pub fn build_uv_edges<F: Copy>(mesh: &Mesh<F>) -> (edges: Vec<[F; 4]>)
    requires
        mesh.wf(),
    ensures
        edges.len() == 3 * mesh.tri_count_spec(),
        forall|h: int|
            0 <= h < edges.len() ==> {
                let a = mesh.corner(h).uv;
                let b = mesh.corner(next_slot(h)).uv;
                #[trigger] edges@[h]@ == seq![a[0], a[1], b[0], b[1]]
            },
{
    let slots: usize = 3 * mesh.tri_count();
    let mut edges: Vec<[F; 4]> = Vec::new();
    let mut h: usize = 0;
    while h < slots
        invariant
            mesh.wf(),
            slots == 3 * mesh.tri_count_spec(),
            h <= slots,
            edges.len() == h,
            forall|k: int|
                0 <= k < h ==> {
                    let a = mesh.corner(k).uv;
                    let b = mesh.corner(next_slot(k)).uv;
                    #[trigger] edges@[k]@ == seq![a[0], a[1], b[0], b[1]]
                },
        decreases slots - h,
    {
        let n: usize = if h % 3 == 2 {
            h - 2
        } else {
            h + 1
        };
        assert(n == next_slot(h as int));
        let a: [F; 2] = mesh.vertices[mesh.indices[h] as usize].uv;
        let b: [F; 2] = mesh.vertices[mesh.indices[n] as usize].uv;
        let e: [F; 4] = [a[0], a[1], b[0], b[1]];
        assert(e@ =~= seq![a[0], a[1], b[0], b[1]]);
        edges.push(e);
        h += 1;
    }
    edges
}

/// Byte `j` of a number, counted from the lowest.
pub open spec fn byte_of(x: u32, j: int) -> u8 {
    if j == 0 {
        (x % 256) as u8
    } else if j == 1 {
        (x as int / 256 % 256) as u8
    } else if j == 2 {
        (x as int / 65536 % 256) as u8
    } else {
        (x as int / 16777216) as u8
    }
}

/// The bytes of the numbers, each with its lowest byte first.
pub open spec fn low_first(xs: Seq<u32>) -> Seq<u8> {
    Seq::new(4 * xs.len(), |i: int| byte_of(xs[i / 4], i % 4))
}

/// The bytes of the numbers, each with its highest byte first.
pub open spec fn high_first(xs: Seq<u32>) -> Seq<u8> {
    Seq::new(4 * xs.len(), |i: int| byte_of(xs[i / 4], 3 - i % 4))
}

/// The memory of an index list, through `bytemuck::cast_slice`, which reinterprets a slice
/// of plain values as bytes without changing them. Which byte of a number comes first is
/// the machine's choice, the same for all of them.
#[verifier::external_body]
fn cast_indices(indices: &Vec<u32>) -> (bytes: Vec<u8>)
    ensures
        bytes@ == low_first(indices@) || bytes@ == high_first(indices@),
{
    bytemuck::cast_slice::<u32, u8>(indices.as_slice()).to_vec()
}

impl<F> Mesh<F> {
    /// The index buffer to upload and the number of indices in it. Every index is there,
    /// in order, in the machine's byte order.
    pub fn index_buffer(&self) -> (b: (Vec<u8>, u32))
        requires
            self.indices.len() <= u32::MAX,
        ensures
            b.0@ == low_first(self.indices@) || b.0@ == high_first(self.indices@),
            b.0.len() == 4 * self.indices.len(),
            b.1 == self.indices.len(),
    {
        (cast_indices(&self.indices), self.indices.len() as u32)
    }
}

} // verus!
