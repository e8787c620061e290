//! The decisions behind a planetary voxel viewer, verified.
//!
//! Each module owns one part of the world model: columns and their water,
//! materials, trees, chunk meshes, the terrain quadtree and its caches, the
//! river network, and the photo map. Everything works on plain values; the
//! application around the library supplies sampled heights, noise and hashes
//! and turns the answers into geometry, files and pixels.

pub mod body;
pub mod column;
pub mod readings;
pub mod edits;
pub mod tree;
pub mod material;
pub mod chunk;
pub mod grid;
pub mod chunk_mesh;
pub mod foliage;
pub mod table;
pub mod cache;
pub mod tile;
pub mod order;
pub mod tile_stream;
pub mod chunk_stream;
pub mod frame;
pub mod capture;
pub mod hash;
pub mod avatar;
pub mod rivers_file;
pub mod reaches;
pub mod buckets;
pub mod measure;
pub mod narrowing;
pub mod lakes;
pub mod hydrology;
pub mod tile_frame;
pub mod tile_mesh;
pub mod synoptic;
pub mod text;
pub mod sampling;
pub mod sidecar;
pub mod photo;
pub mod photo_map;
pub mod map_clicks;
pub mod trash;
pub mod destination;
pub mod map_plan;
pub mod picture;
pub mod contours;
pub mod overlay;
pub mod courses;
pub mod ranking;
pub mod raycast;
pub mod clock;
pub mod forest;
