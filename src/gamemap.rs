use vstd::prelude::*;
use crate::cell_map::CellMap;
use crate::color::{spec_transparent, spec_unpack, transparent, unpack_rgb, Rgba};
use crate::geometry::{lemma_row_major, Dimensions, VERTEX_CNT, WORLD_MAP_GRID};
use crate::heights::lemma_pixel_cell;
use crate::raster::Image;
use crate::terrain::{has_world_map, Landscape};

verus! {

/// Pixel `(tx, ty)` of the overview map: the packed colour stored for it in
/// the cell under it (each cell's rows in reverse order, the first stored row
/// at the bottom of its block), or transparent where the cell has no complete
/// overview grid.
pub open spec fn world_map_pixel(records: CellMap<Landscape>, dims: Dimensions, tx: int, ty: int) -> Rgba {
    let x = dims.min_x + tx / 9;
    let y = dims.max_y - ty / 9;
    if records.lookup(x, y) matches Some(l) && has_world_map(l) {
        spec_unpack(records.lookup(x, y)->Some_0.world_map@[(8 - ty % 9) * 9 + tx % 9])
    } else {
        spec_transparent()
    }
}

/// Renders the low-resolution overview map, `WORLD_MAP_GRID` pixels per cell
/// edge, from the packed colours of the landscape records.
pub fn generate_map(dims: &Dimensions, landscape_records: &CellMap<Landscape>) -> (img: Image)
    requires
        dims.wf(),
        landscape_records.wf(),
    ensures
        img.wf(),
        img.width == dims.spec_width() * 9,
        img.height == dims.spec_height() * 9,
        forall|j: int|
            0 <= j < img.pixels.len() ==> #[trigger] img.pixels@[j] == world_map_pixel(
                *landscape_records,
                *dims,
                j % (img.width as int),
                j / (img.width as int),
            ),
{
    proof {
        dims.lemma_fits_smaller(WORLD_MAP_GRID as int, VERTEX_CNT as int);
        dims.lemma_sizes(WORLD_MAP_GRID as int);
    }
    let w = dims.pixel_width(WORLD_MAP_GRID);
    let h = dims.pixel_height(WORLD_MAP_GRID);
    let mut pixels: Vec<Rgba> = Vec::with_capacity(dims.pixel_size(WORLD_MAP_GRID));
    let mut ty: usize = 0;
    while ty < h
        invariant
            dims.wf(),
            landscape_records.wf(),
            w == dims.spec_width() * 9,
            h == dims.spec_height() * 9,
            ty <= h,
            pixels.len() == ty * w,
            forall|j: int|
                0 <= j < pixels.len() ==> #[trigger] pixels@[j] == world_map_pixel(*landscape_records, *dims, j % (w as int), j / (w as int)),
        decreases h - ty,
    {
        let mut tx: usize = 0;
        while tx < w
            invariant
                dims.wf(),
                landscape_records.wf(),
                w == dims.spec_width() * 9,
                h == dims.spec_height() * 9,
                ty < h,
                tx <= w,
                pixels.len() == ty * w + tx,
                forall|j: int|
                    0 <= j < pixels.len() ==> #[trigger] pixels@[j] == world_map_pixel(*landscape_records, *dims, j % (w as int), j / (w as int)),
            decreases w - tx,
        {
            proof {
                lemma_pixel_cell(*dims, 9, tx as int, ty as int);
                lemma_row_major((ty * w + tx) as int, w as int, ty as int, tx as int);
            }
            let x = dims.transform_to_cell_x(tx / WORLD_MAP_GRID);
            let y = dims.transform_to_cell_y(ty / WORLD_MAP_GRID);
            let c = match landscape_records.get(x, y) {
                Some(land) => {
                    if land.has_world_map_data() {
                        let k = (WORLD_MAP_GRID - 1 - ty % WORLD_MAP_GRID) * WORLD_MAP_GRID + tx % WORLD_MAP_GRID;
                        unpack_rgb(land.world_map[k])
                    } else {
                        transparent()
                    }
                },
                None => transparent(),
            };
            pixels.push(c);
            tx = tx + 1;
        }
        assert((ty + 1) * w == ty * w + w) by (nonlinear_arith);
        ty = ty + 1;
    }
    assert(h * w == w * h) by (nonlinear_arith);
    Image { width: w, height: h, pixels }
}

} // verus!
