use vstd::prelude::*;
use crate::geometry::{GRID_SIZE, VERTEX_CNT, WORLD_MAP_GRID};

verus! {

/// The landscape data of one world cell.
///
/// Each grid is stored row-major: `height_deltas` holds `VERTEX_CNT` rows of
/// `VERTEX_CNT` signed deltas, `texture_indices` the `GRID_SIZE` x `GRID_SIZE`
/// texture indices in their 4x4-block-interleaved storage order, and
/// `world_map` the `WORLD_MAP_GRID` x `WORLD_MAP_GRID` packed overview colours.
#[derive(Clone, Debug)]
pub struct Landscape {
    /// The record carries vertex heights.
    pub uses_heights: bool,
    /// The record carries texture indices.
    pub uses_textures: bool,
    /// Base height of the first row, in storage units.
    pub height_offset: i32,
    pub height_deltas: Vec<i8>,
    pub texture_indices: Vec<u16>,
    pub world_map: Vec<i8>,
}

/// Region membership of one world cell.
#[derive(Clone, Debug)]
pub struct CellRecord {
    pub name: String,
    pub region: Option<String>,
}

pub open spec fn has_heights(l: Landscape) -> bool {
    l.uses_heights && l.height_deltas.len() == VERTEX_CNT * VERTEX_CNT
}

pub open spec fn has_textures(l: Landscape) -> bool {
    l.uses_textures && l.texture_indices.len() == GRID_SIZE * GRID_SIZE
}

pub open spec fn has_world_map(l: Landscape) -> bool {
    l.world_map.len() == WORLD_MAP_GRID * WORLD_MAP_GRID
}

pub open spec fn has_region(c: CellRecord) -> bool {
    c.region matches Some(s) && s@.len() > 0
}

impl Landscape {
    /// The record's height grid is present and complete.
    pub fn has_height_data(&self) -> (r: bool)
        ensures
            r == has_heights(*self),
    {
        self.uses_heights && self.height_deltas.len() == VERTEX_CNT * VERTEX_CNT
    }

    /// The record's texture grid is present and complete.
    pub fn has_texture_data(&self) -> (r: bool)
        ensures
            r == has_textures(*self),
    {
        self.uses_textures && self.texture_indices.len() == GRID_SIZE * GRID_SIZE
    }

    /// The record's overview grid is complete.
    pub fn has_world_map_data(&self) -> (r: bool)
        ensures
            r == has_world_map(*self),
    {
        self.world_map.len() == WORLD_MAP_GRID * WORLD_MAP_GRID
    }
}

impl CellRecord {
    /// The cell belongs to a region with a non-empty name.
    pub fn has_region(&self) -> (r: bool)
        ensures
            r == has_region(*self),
    {
        match &self.region {
            Some(s) => !s.as_str().is_empty(),
            None => false,
        }
    }
}

} // verus!
