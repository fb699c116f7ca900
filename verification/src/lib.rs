//! Voxel surface extraction with baked radiosity lighting.
//!
//! The crate turns a voxel grid into a surface mesh and bakes static
//! diffuse lighting for it into a lightmap texture: faces exchange light
//! energy over a fixed number of progressive rounds, and the settled
//! per-face brightness is rasterized into the texture.  All arithmetic is
//! fixed-point, so every step of the bake is specified exactly.

pub mod export_gltf;
pub mod fixed;
pub mod image_to_grid;
pub mod laws;
pub mod radiosity;
pub mod radiosity_color;
pub mod texture;
pub mod vector;
pub mod voxel;
