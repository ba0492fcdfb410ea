//! A texture atlas for a Metal renderer.
//!
//! The atlas packs many small images into a few GPU textures and remembers, for each
//! image, where it was put. This crate holds the bookkeeping: it decides which texture
//! an image goes to, when a texture is made and when it is dropped, and which bytes are
//! to be copied where. What the GPU has to do follows from that as a list of
//! [`GpuCommand`](gpu::GpuCommand)s, which the renderer carries out in order.
pub mod allocator;
pub mod atlas;
pub mod device;
pub mod error;
pub mod geometry;
pub mod gpu;
pub mod laws;
pub mod model;
pub mod operation;
pub mod state;
pub mod texture;
pub mod texture_list;
pub mod textures;
pub mod tile;
pub mod tile_map;
pub mod upload;
