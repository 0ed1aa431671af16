//! Verified core of an X-ray tile-map generator.
//!
//! The library consumes batches of 3D points whose coordinates are given in
//! integer world units, discretizes them into pixel columns of square tiles,
//! reduces every column to a single RGBA color under one of four coloring
//! strategies, plans a quadtree of tiles over a bounding box, and composes
//! parent tiles from their four children.  All geometry and accumulation is
//! exact integer arithmetic; reading point sources, PNG files and isometry
//! transforms live outside the library.

pub mod color;
pub mod colormap;
pub mod laws;
pub mod point_data;
pub mod quadtree;
pub mod raster;
pub mod resample;
pub mod saturation;
pub mod strategies;
pub mod tile;
