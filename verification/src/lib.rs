//! The verified core of lowtex, a low-poly texture painter.

pub mod atlas;
pub mod charts;
pub mod discipline;
pub mod document;
pub mod edges;
pub mod fill;
pub mod fills;
pub mod frame;
pub mod generated;
pub mod ghosts;
pub mod gpu_stroke;
pub mod history;
pub mod layers;
pub mod layouts;
pub mod looks;
pub mod masks;
pub mod mesh;
pub mod meshes;
pub mod numbering;
pub mod painting;
pub mod panels;
pub mod pick;
pub mod preview;
pub mod project;
pub mod raster;
pub mod readbacks;
pub mod rects;
pub mod refresh;
pub mod renderer;
pub mod requests;
pub mod segments;
pub mod session;
pub mod sessions;
pub mod skyline;
pub mod slots;
pub mod stacks;
pub mod stores;
pub mod stroke;
pub mod surface;
pub mod texture;
pub mod ui;
pub mod unwrap;
