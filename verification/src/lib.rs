//! A verified mesh-to-meshlet conversion pipeline.
//!
//! The crate turns a triangle-soup mesh description (indexed positions,
//! texture coordinates and normals) into the three flat buffers a
//! mesh-shading renderer uploads to the GPU: a deduplicated, fetch-ordered
//! vertex buffer, a list of bounded meshlet records, and a shared packed
//! meshlet data buffer. Beside the pipeline stand the renderer's small
//! pure helpers: shader target-profile names and the packed words of GPU
//! descriptor-table entries.

pub mod builder;
pub mod bytes;
pub mod cache;
pub mod dedup;
pub mod descriptor;
pub mod distinct;
pub mod error;
pub mod fetch;
pub mod loader;
pub mod mesh;
pub mod meshlet;
pub mod overdraw;
pub mod pack;
pub mod shader;
pub mod triangles;
pub mod vertex;
