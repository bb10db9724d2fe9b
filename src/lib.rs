//! Rasterisation and territory partitioning for a tiled world map.
//!
//! The library turns a sparse grid of terrain cells into dense pixel buffers
//! (elevation, textured terrain, overview map) and assigns populated cells to
//! their nearest intervention site.
//!
//! - `geometry`: the bounding rectangle and its cell / pixel transforms.
//! - `cell_map`, `terrain`: per-cell records over the rectangle.
//! - `heights`, `heightmap`: height decoding, the elevation buffer, colours.
//! - `landscape`, `texture`: the textured raster and texture decoding.
//! - `gamemap`, `ptmap`: the overview map and pre-rendered map crops.
//! - `territory`, `outline`, `region_color`: the king-move partition, its
//!   outlines, Voronoi requests, markers and region colours.
//! - `color`, `raster`: pixels, the compact colour codec, images.

pub mod color;
pub mod geometry;
pub mod cell_map;
pub mod terrain;
pub mod heights;
pub mod raster;
pub mod heightmap;
pub mod landscape;
pub mod texture;
pub mod gamemap;
pub mod region_color;
pub mod territory;
pub mod outline;
pub mod ptmap;
