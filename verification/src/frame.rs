//! One frame: what is drawn in which order, the cursor ring, reading a frame back, and how
//! long to wait for a device.

use crate::preview::{key_eq, same_key};
use crate::renderer::{Display, FlushPlan, Renderer};
use crate::texture::{image_at, is_image, padded_row_bytes, strip_row_padding};
use vstd::prelude::*;

verus! {

/// Line segments of the cursor ring.
pub const BRUSH_RING_SEGMENTS: u32 = 48;

/// How often a device is asked for.
pub const DEVICE_ATTEMPTS: u32 = 40;

/// One thing a frame draws.
#[derive(Clone, Copy, PartialEq, Eq, Structural, Debug)]
pub enum DrawItem {
    /// The mesh, by its number of indices; `atlas` says that it samples the image composited
    /// on the GPU.
    Mesh { indices: u32, atlas: bool },
    /// The ground grid.
    Grid,
    /// The outline of the locked facets, by its number of vertices.
    Outline { vertices: u32 },
    /// The cursor ring, by its number of vertices.
    Ring { vertices: u32 },
    /// The orientation compass.
    Compass,
}

/// A sequence of at most one item.
pub open spec fn only_if(on: bool, item: DrawItem) -> Seq<DrawItem> {
    if on {
        seq![item]
    } else {
        Seq::empty()
    }
}

impl<F: Copy> Renderer<F> {
    /// What a frame draws, in order: the mesh, then the grid that the mesh occludes, then
    /// outline and ring over it, and the compass last. `atlas_ready` says that the layers
    /// were composited on the GPU at least once; `outline` counts the outline's vertices;
    /// `compass_fits` says that the region has room for the compass.
    pub fn draw_into(&self, atlas_ready: bool, outline: u32, compass_fits: bool) -> (plan: Vec<
        DrawItem,
    >)
        requires
            self.scene.mesh.indices.len() <= u32::MAX,
        ensures
            plan@ == seq![
                DrawItem::Mesh {
                    indices: self.scene.mesh.indices.len() as u32,
                    atlas: atlas_ready && self.gpu.display,
                },
            ] + only_if(self.show_grid, DrawItem::Grid) + only_if(
                outline > 0,
                DrawItem::Outline { vertices: outline },
            ) + only_if(
                self.display.ring_count > 0,
                DrawItem::Ring { vertices: self.display.ring_count },
            ) + only_if(compass_fits, DrawItem::Compass),
            plan@[0] == (DrawItem::Mesh {
                indices: self.scene.mesh.indices.len() as u32,
                atlas: atlas_ready && self.gpu.display,
            }),
            self.show_grid ==> plan.len() > 1 && plan@[1] == DrawItem::Grid,
            compass_fits ==> plan@.last() == DrawItem::Compass,
            plan.len() == 1 + (if self.show_grid {
                1int
            } else {
                0
            }) + (if outline > 0 {
                1int
            } else {
                0
            }) + (if self.display.ring_count > 0 {
                1int
            } else {
                0
            }) + (if compass_fits {
                1int
            } else {
                0
            }),
            outline > 0 ==> plan@[if self.show_grid {
                2
            } else {
                1
            }] == (DrawItem::Outline { vertices: outline }),
    {
        let mut plan: Vec<DrawItem> = Vec::new();
        plan.push(
            DrawItem::Mesh {
                indices: self.scene.mesh.indices.len() as u32,
                atlas: atlas_ready && self.gpu.display,
            },
        );
        if self.show_grid {
            plan.push(DrawItem::Grid);
        }
        if outline > 0 {
            plan.push(DrawItem::Outline { vertices: outline });
        }
        if self.display.ring_count > 0 {
            plan.push(DrawItem::Ring { vertices: self.display.ring_count });
        }
        if compass_fits {
            plan.push(DrawItem::Compass);
        }
        assert(plan@ =~= seq![
            DrawItem::Mesh {
                indices: self.scene.mesh.indices.len() as u32,
                atlas: atlas_ready && self.gpu.display,
            },
        ] + only_if(self.show_grid, DrawItem::Grid) + only_if(
            outline > 0,
            DrawItem::Outline { vertices: outline },
        ) + only_if(
            self.display.ring_count > 0,
            DrawItem::Ring { vertices: self.display.ring_count },
        ) + only_if(compass_fits, DrawItem::Compass));
        plan
    }

    /// Brings the cursor ring up to date. `key` stands for what it depends on, without one
    /// no painting tool is over the view; `hit` says that the cursor is over the mesh. Returns
    /// the segments to draw, as pairs of point numbers on the circle, when the ring is drawn
    /// anew; while the key stays the same the ring stays as it is.
    pub fn set_brush_cursor(&mut self, key: Option<Vec<u32>>, hit: bool) -> (segments: Option<
        Vec<(u32, u32)>,
    >)
        ensures
            ({
                let same = key is Some && key_eq(key, old(self).display.ring_key);
                &&& segments is Some <==> key is Some && !same && hit
                &&& segments matches Some(s) ==> is_ring(s@, BRUSH_RING_SEGMENTS) && s.len() == 48
                    && final(self).display.ring_count == 96
                &&& *final(self) == if same {
                    *old(self)
                } else {
                    (Renderer {
                        display: Display {
                            ring_key: key,
                            ring_count: if segments is Some {
                                (2 * BRUSH_RING_SEGMENTS) as u32
                            } else {
                                0
                            },
                            ..old(self).display
                        },
                        ..*old(self)
                    })
                }
            }),
    {
        let cursor: bool = key.is_some();
        if cursor && same_key(&key, &self.display.ring_key) {
            return None;
        }
        self.display.ring_key = key;
        if !cursor || !hit {
            self.display.ring_count = 0;
            return None;
        }
        let segments = ring_segments(BRUSH_RING_SEGMENTS);
        self.display.ring_count = 2 * BRUSH_RING_SEGMENTS;
        Some(segments)
    }
}

/// The segments join point `k` to point `k + 1`, and the last one closes the ring.
pub open spec fn is_ring(s: Seq<(u32, u32)>, n: u32) -> bool {
    &&& s.len() == n
    &&& forall|k: int| 0 <= k < n ==> (#[trigger] s[k]).0 == k && s[k].1 == (k + 1) % n as int
}

/// A closed loop of `n` segments.
pub fn ring_segments(n: u32) -> (s: Vec<(u32, u32)>)
    ensures
        is_ring(s@, n),
{
    let mut s: Vec<(u32, u32)> = Vec::new();
    let mut k: u32 = 0;
    while k < n
        invariant
            k <= n,
            s.len() == k,
            forall|j: int| 0 <= j < k ==> (#[trigger] s@[j]).0 == j && s@[j].1 == (j + 1) % n as int,
        decreases n - k,
    {
        let next: u32 = if k + 1 == n {
            0
        } else {
            k + 1
        };
        proof {
            if k + 1 == n {
                assert((k + 1) % n as int == 0) by (nonlinear_arith)
                    requires
                        k + 1 == n,
                        n > 0,
                ;
            } else {
                vstd::arithmetic::div_mod::lemma_small_mod((k + 1) as nat, n as nat);
            }
        }
        s.push((k, next));
        k += 1;
    }
    s
}

/// Every ring is closed: each segment starts where the one before it ends.
pub proof fn law_ring_is_closed(s: Seq<(u32, u32)>, n: u32, k: int)
    requires
        is_ring(s, n),
        0 <= k < n,
    ensures
        s[k].1 == s[(k + 1) % n as int].0,
{
    vstd::arithmetic::div_mod::lemma_mod_bound(k + 1, n as int);
    assert(s[(k + 1) % n as int].0 == (k + 1) % n as int);
}

/// The buffer a frame is read back into.
#[derive(Clone, Copy, PartialEq, Eq, Structural, Debug)]
pub struct CaptureLayout {
    pub width: u32,
    pub height: u32,
    /// Bytes per row, with padding.
    pub row_bytes: u32,
    /// Bytes in all.
    pub total: u64,
}

impl<F: Copy> Renderer<F> {
    /// Begins a capture: what is painted but not yet shown is to be shown first, and the
    /// frame is read into a buffer of this layout.
    pub fn begin_capture(&mut self) -> (r: (FlushPlan, CaptureLayout))
        requires
            old(self).width * 4 + 255 <= u32::MAX,
            (old(self).width * 4 + 255) * old(self).height <= u32::MAX,
        ensures
            r.0.gpu == (old(self).display.dirty_rect is Some && old(self).gpu.display),
            r.0.cpu == if !old(self).gpu.display || old(self).uv_stroke {
                old(self).display.dirty_rect
            } else {
                None
            },
            r.1.width == old(self).width,
            r.1.height == old(self).height,
            r.1.row_bytes % 256 == 0,
            old(self).width * 4 <= r.1.row_bytes < old(self).width * 4 + 256,
            r.1.total == r.1.row_bytes * r.1.height,
            *final(self) == (Renderer {
                display: Display { dirty_rect: None, ..old(self).display },
                ..*old(self)
            }),
    {
        let plan = self.flush_paint();
        let row_bytes: u32 = padded_row_bytes(self.width);
        let h: u32 = self.height;
        assert(row_bytes * h <= u32::MAX) by (nonlinear_arith)
            requires
                row_bytes <= self.width * 4 + 255,
                (self.width * 4 + 255) * h <= u32::MAX,
        ;
        let layout = CaptureLayout {
            width: self.width,
            height: h,
            row_bytes,
            total: (row_bytes * h) as u64,
        };
        (plan, layout)
    }
}

impl CaptureLayout {
    /// The captured frame: pixels, width and height.
    pub fn capture(self, data: &[u8]) -> (r: (Vec<u8>, u32, u32))
        requires
            self.width * 4 <= self.row_bytes,
            self.row_bytes * self.height <= u32::MAX,
            self.row_bytes * self.height <= data@.len(),
        ensures
            r.1 == self.width,
            r.2 == self.height,
            is_image(r.0@, self.width as int, self.height as int),
            forall|x: int, y: int, c: int|
                0 <= x < self.width && 0 <= y < self.height && 0 <= c < 4 ==> #[trigger] image_at(
                    r.0@,
                    self.width as int,
                    x,
                    y,
                    c,
                ) == data@[y * self.row_bytes + x * 4 + c],
    {
        (
            strip_row_padding(data, self.width, self.height, self.row_bytes),
            self.width,
            self.height,
        )
    }
}

/// What to do after a request for a device failed.
#[derive(Clone, Copy, PartialEq, Eq, Structural, Debug)]
pub struct Retry {
    /// How long to wait first.
    pub wait_ms: u64,
    /// Whether to ask again.
    pub again: bool,
}

/// The step after attempt number `attempt` failed: the wait grows by 25 ms with every attempt
/// up to 200 ms, and after the last attempt no other follows.
pub fn device_retry(attempt: u32) -> (r: Retry)
    requires
        attempt < DEVICE_ATTEMPTS,
    ensures
        r.wait_ms == if attempt < 8 {
            25 * (attempt + 1)
        } else {
            200
        },
        r.again == (attempt + 1 < DEVICE_ATTEMPTS),
        r.again == (attempt < 39),
{
    let steps: u64 = if attempt + 1 < 8 {
        (attempt + 1) as u64
    } else {
        8
    };
    Retry { wait_ms: 25 * steps, again: attempt + 1 < DEVICE_ATTEMPTS }
}

} // verus!
