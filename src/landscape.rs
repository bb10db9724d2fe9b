use vstd::prelude::*;
use std::collections::HashMap;
use crate::cell_map::CellMap;
use crate::color::{default_color, overlay_half, spec_blend_half, spec_default_color, spec_water_tint, water_tint, Rgba};
use crate::geometry::{lemma_row_major, lemma_row_major_bound, Dimensions, GRID_SIZE, VERTEX_CNT};
use crate::heights::lemma_pixel_cell;
use crate::raster::Image;
use crate::terrain::{has_textures, Landscape};

verus! {

broadcast use vstd::std_specs::hash::group_hash_axioms;

/// A decoded square texture atlas, row-major from the top-left pixel.
#[derive(Clone, Debug)]
pub struct Texture {
    pub size: usize,
    pub pixels: Vec<Rgba>,
}

/// The texture has at least one pixel and as many as its size says.
pub open spec fn usable(t: Texture) -> bool {
    t.size >= 1 && t.pixels.len() == t.size * t.size
}

/// Storage position of tile `(gx, gy)` in a cell's texture grid: the grid is
/// kept as 4x4 blocks of 4x4 tiles.
pub open spec fn tile_slot(gx: int, gy: int) -> int {
    (4 * (gy / 4) + gx / 4) * 16 + 4 * (gy % 4) + gx % 4
}

/// Cell `(x, y)` holds a record with a complete texture grid.
pub open spec fn cell_has_textures(records: CellMap<Landscape>, x: int, y: int) -> bool {
    records.lookup(x, y) matches Some(l) && has_textures(l)
}

/// Nearest-neighbour sample `(px, py)` of a texture shrunk to `ts` x `ts`
/// pixels: the stride is the texture's size over `ts`.
pub open spec fn spec_downsample(t: Texture, ts: int, px: int, py: int) -> Rgba {
    let step = (t.size as int) / ts;
    t.pixels@[(py * step) * t.size + px * step]
}

/// The elevation under pixel `(tx, ty)` of the textured raster, read from the
/// elevation buffer of `VERTEX_CNT` samples per cell edge.
pub open spec fn height_under(dims: Dimensions, heights: Seq<i64>, tx: int, ty: int) -> i64 {
    let cs = dims.spec_cell_size();
    heights[(ty * 65 / cs) * (dims.spec_width() * 65) + tx * 65 / cs]
}

/// Pixel `(tx, ty)` of the textured raster.
///
/// The cell under the pixel, the tile `(gx, gy)` inside the cell (tile rows
/// counted from the bottom of the cell) and the pixel inside the tile pick a
/// texture and a sample of it; the sample is blended half-and-half with the
/// water tint where the elevation below is negative. A cell without texture
/// data, or a tile whose texture is missing from `textures`, shows the default
/// colour.
pub open spec fn texture_pixel(
    records: CellMap<Landscape>,
    dims: Dimensions,
    textures: Map<u32, Texture>,
    heights: Seq<i64>,
    tx: int,
    ty: int,
) -> Rgba {
    let ts = dims.texture_size as int;
    let cs = dims.spec_cell_size();
    let x = dims.min_x + tx / cs;
    let y = dims.max_y - ty / cs;
    let lx = tx % cs;
    let ly = ty % cs;
    let gx = lx / ts;
    let gy = 15 - ly / ts;
    if cell_has_textures(records, x, y) {
        let l = records.lookup(x, y)->Some_0;
        let key = l.texture_indices@[tile_slot(gx, gy)] as u32;
        if textures.contains_key(key) && usable(textures[key]) {
            let c = spec_downsample(textures[key], ts, lx % ts, ly % ts);
            if height_under(dims, heights, tx, ty) < 0 {
                spec_blend_half(c, spec_water_tint())
            } else {
                c
            }
        } else {
            spec_default_color()
        }
    } else {
        spec_default_color()
    }
}

proof fn lemma_sample_index(size: int, ts: int, px: int, py: int)
    requires
        size >= 1,
        ts >= 1,
        0 <= px < ts,
        0 <= py < ts,
    ensures
        0 <= px * (size / ts) < size,
        0 <= py * (size / ts) < size,
        0 <= (py * (size / ts)) * size + px * (size / ts) < size * size,
{
    let step = size / ts;
    assert(0 <= px * step < size && 0 <= py * step < size) by (nonlinear_arith)
        requires
            step == size / ts,
            size >= 1,
            ts >= 1,
            0 <= px < ts,
            0 <= py < ts,
    ;
    lemma_row_major_bound(size, size, py * step, px * step);
}

proof fn lemma_tile(ts: int, lx: int, ly: int)
    requires
        ts >= 1,
        0 <= lx < 16 * ts,
        0 <= ly < 16 * ts,
    ensures
        0 <= lx / ts < 16,
        0 <= ly / ts < 16,
        0 <= tile_slot(lx / ts, 15 - ly / ts) < 256,
{
    assert(0 <= lx / ts < 16 && 0 <= ly / ts < 16) by (nonlinear_arith)
        requires
            ts >= 1,
            0 <= lx < 16 * ts,
            0 <= ly < 16 * ts,
    ;
}

proof fn lemma_vertex_under(dims: Dimensions, tx: int, ty: int)
    requires
        dims.wf(),
        0 <= tx < dims.spec_width() * dims.spec_cell_size(),
        0 <= ty < dims.spec_height() * dims.spec_cell_size(),
    ensures
        0 <= tx * 65 / dims.spec_cell_size() < dims.spec_width() * 65,
        0 <= ty * 65 / dims.spec_cell_size() < dims.spec_height() * 65,
        0 <= (ty * 65 / dims.spec_cell_size()) * (dims.spec_width() * 65) + tx * 65 / dims.spec_cell_size()
            < (dims.spec_width() * 65) * (dims.spec_height() * 65),
{
    let cs = dims.spec_cell_size();
    let w = dims.spec_width();
    let h = dims.spec_height();
    assert(0 <= tx * 65 / cs < w * 65) by (nonlinear_arith)
        requires
            cs >= 1,
            0 <= tx < w * cs,
    ;
    assert(0 <= ty * 65 / cs < h * 65) by (nonlinear_arith)
        requires
            cs >= 1,
            0 <= ty < h * cs,
    ;
    lemma_row_major_bound(w * 65, h * 65, ty * 65 / cs, tx * 65 / cs);
    assert((h * 65) * (w * 65) == (w * 65) * (h * 65)) by (nonlinear_arith);
}

fn composite_pixel(
    dims: &Dimensions,
    records: &CellMap<Landscape>,
    textures: &HashMap<u32, Texture>,
    heights: &Vec<i64>,
    tx: usize,
    ty: usize,
) -> (c: Rgba)
    requires
        dims.wf(),
        records.wf(),
        heights.len() == (dims.spec_width() * 65) * (dims.spec_height() * 65),
        tx < dims.spec_width() * dims.spec_cell_size(),
        ty < dims.spec_height() * dims.spec_cell_size(),
    ensures
        c == texture_pixel(*records, *dims, textures@, heights@, tx as int, ty as int),
{
    let ts = dims.texture_size;
    let cs = dims.cell_size();
    proof {
        lemma_pixel_cell(*dims, cs as int, tx as int, ty as int);
        lemma_tile(ts as int, (tx % cs) as int, (ty % cs) as int);
    }
    let x = dims.transform_to_cell_x(tx / cs);
    let y = dims.transform_to_cell_y(ty / cs);
    let lx = tx % cs;
    let ly = ty % cs;
    let gx = lx / ts;
    let gy = (GRID_SIZE - 1) - ly / ts;
    let land = match records.get(x, y) {
        Some(l) => l,
        None => {
            return default_color();
        },
    };
    if !land.has_texture_data() {
        return default_color();
    }
    let slot = (4 * (gy / 4) + gx / 4) * GRID_SIZE + 4 * (gy % 4) + gx % 4;
    let key = land.texture_indices[slot] as u32;
    let texture = match textures.get(&key) {
        Some(t) => t,
        None => {
            return default_color();
        },
    };
    if texture.size == 0 || texture.pixels.len() / texture.size != texture.size || texture.pixels.len() % texture.size != 0 {
        proof {
            if texture.size >= 1 && texture.pixels.len() == texture.size * texture.size {
                lemma_row_major(texture.pixels.len() as int, texture.size as int, texture.size as int, 0);
            }
        }
        return default_color();
    }
    proof {
        vstd::arithmetic::div_mod::lemma_fundamental_div_mod(texture.pixels.len() as int, texture.size as int);
        lemma_sample_index(texture.size as int, ts as int, (lx % ts) as int, (ly % ts) as int);
    }
    let step = texture.size / ts;
    let index = ((ly % ts) * step) * texture.size + (lx % ts) * step;
    let mut color = texture.pixels[index];
    proof {
        lemma_vertex_under(*dims, tx as int, ty as int);
        dims.lemma_sizes(65);
        assert(slot == tile_slot(gx as int, gy as int));
        assert(textures@.contains_key(key) && textures@[key] == *texture);
        assert(usable(*texture));
        assert(color == spec_downsample(*texture, ts as int, (lx % ts) as int, (ly % ts) as int));
    }
    let vx128 = (tx as u128) * (VERTEX_CNT as u128) / (cs as u128);
    let vy128 = (ty as u128) * (VERTEX_CNT as u128) / (cs as u128);
    assert(vx128 == tx * 65 / dims.spec_cell_size());
    assert(vy128 == ty * 65 / dims.spec_cell_size());
    let vx = vx128 as usize;
    let vy = vy128 as usize;
    let stride = dims.stride(VERTEX_CNT);
    proof {
        lemma_row_major_bound(stride as int, dims.spec_height() * 65, vy as int, vx as int);
    }
    let h = heights[vy * stride + vx];
    if h < 0 {
        color = overlay_half(color, water_tint());
    }
    color
}

/// Renders the textured raster: `cell_size()` pixels per cell edge, each tile
/// a texture shrunk to `texture_size` pixels. `textures` is the set of decoded
/// textures for this pass, by texture index; `heights` is the elevation buffer
/// of the same rectangle. Returns `None` when `heights` does not cover the
/// rectangle at `VERTEX_CNT` samples per cell edge.
pub fn compute_landscape_image(
    dims: &Dimensions,
    landscape_records: &CellMap<Landscape>,
    textures: &HashMap<u32, Texture>,
    heights: &Vec<i64>,
) -> (r: Option<Image>)
    requires
        dims.wf(),
        landscape_records.wf(),
    ensures
        r is None <==> heights.len() != (dims.spec_width() * 65) * (dims.spec_height() * 65),
        r matches Some(img) ==> {
            &&& img.wf()
            &&& img.width == dims.spec_width() * dims.spec_cell_size()
            &&& img.height == dims.spec_height() * dims.spec_cell_size()
            &&& forall|j: int|
                0 <= j < img.pixels.len() ==> #[trigger] img.pixels@[j] == texture_pixel(
                    *landscape_records,
                    *dims,
                    textures@,
                    heights@,
                    j % (img.width as int),
                    j / (img.width as int),
                )
        },
{
    if heights.len() != dims.pixel_size(VERTEX_CNT) {
        return None;
    }
    let cs = dims.cell_size();
    proof {
        dims.lemma_sizes(cs as int);
    }
    let w = dims.pixel_width(cs);
    let h = dims.pixel_height(cs);
    let mut pixels: Vec<Rgba> = Vec::with_capacity(dims.pixel_size(cs));
    let mut ty: usize = 0;
    while ty < h
        invariant
            dims.wf(),
            landscape_records.wf(),
            heights.len() == (dims.spec_width() * 65) * (dims.spec_height() * 65),
            w == dims.spec_width() * dims.spec_cell_size(),
            h == dims.spec_height() * dims.spec_cell_size(),
            ty <= h,
            pixels.len() == ty * w,
            forall|j: int|
                0 <= j < pixels.len() ==> #[trigger] pixels@[j] == texture_pixel(
                    *landscape_records,
                    *dims,
                    textures@,
                    heights@,
                    j % (w as int),
                    j / (w as int),
                ),
        decreases h - ty,
    {
        let mut tx: usize = 0;
        while tx < w
            invariant
                dims.wf(),
                landscape_records.wf(),
                heights.len() == (dims.spec_width() * 65) * (dims.spec_height() * 65),
                w == dims.spec_width() * dims.spec_cell_size(),
                h == dims.spec_height() * dims.spec_cell_size(),
                ty < h,
                tx <= w,
                pixels.len() == ty * w + tx,
                forall|j: int|
                    0 <= j < pixels.len() ==> #[trigger] pixels@[j] == texture_pixel(
                        *landscape_records,
                        *dims,
                        textures@,
                        heights@,
                        j % (w as int),
                        j / (w as int),
                    ),
            decreases w - tx,
        {
            proof {
                lemma_row_major((ty * w + tx) as int, w as int, ty as int, tx as int);
            }
            let c = composite_pixel(dims, landscape_records, textures, heights, tx, ty);
            pixels.push(c);
            tx = tx + 1;
        }
        assert((ty + 1) * w == ty * w + w) by (nonlinear_arith);
        ty = ty + 1;
    }
    assert(h * w == w * h) by (nonlinear_arith);
    Some(Image { width: w, height: h, pixels })
}

/// Texture index stored in slot `s` of the record of cell `(x, y)`.
pub open spec fn tex_key(records: CellMap<Landscape>, x: int, y: int, s: int) -> u32 {
    records.lookup(x, y)->Some_0.texture_indices@[s] as u32
}

/// Slot `s` of cell `(x, y)` comes before position `(cx, cy, cs)` of the
/// scan (rows south to north, each row west to east, slots in order).
pub open spec fn scanned_before(x: int, y: int, s: int, cx: int, cy: int, cs: int) -> bool {
    y < cy || (y == cy && x < cx) || (y == cy && x == cx && s < cs)
}

/// A cell inside the rectangle uses texture index `key` on one of its tiles.
pub open spec fn uses_texture(records: CellMap<Landscape>, dims: Dimensions, key: u32) -> bool {
    exists|x: int, y: int, s: int|
        dims.contains(x, y) && cell_has_textures(records, x, y) && 0 <= s < 256 && #[trigger] tex_key(records, x, y, s) == key
}

/// The texture indices that the cells inside the rectangle use, each once:
/// what a compositing pass needs decoded.
pub fn required_textures(dims: &Dimensions, landscape_records: &CellMap<Landscape>) -> (r: Vec<u32>)
    requires
        dims.wf(),
        landscape_records.wf(),
    ensures
        r@.no_duplicates(),
        forall|key: u32| r@.contains(key) <==> uses_texture(*landscape_records, *dims, key),
{
    let mut keys: Vec<u32> = Vec::new();
    let mut cy: i64 = dims.min_y as i64;
    while cy <= dims.max_y as i64
        invariant
            dims.wf(),
            landscape_records.wf(),
            dims.min_y <= cy <= dims.max_y + 1,
            keys@.no_duplicates(),
            forall|key: u32| keys@.contains(key) <==> exists|x: int, y: int, s: int|
                dims.contains(x, y) && y < cy && cell_has_textures(*landscape_records, x, y) && 0 <= s < 256
                    && #[trigger] tex_key(*landscape_records, x, y, s) == key,
        decreases dims.max_y + 1 - cy,
    {
        let mut cx: i64 = dims.min_x as i64;
        while cx <= dims.max_x as i64
            invariant
                dims.wf(),
                landscape_records.wf(),
                dims.min_y <= cy <= dims.max_y,
                dims.min_x <= cx <= dims.max_x + 1,
                keys@.no_duplicates(),
                forall|key: u32| keys@.contains(key) <==> exists|x: int, y: int, s: int|
                    dims.contains(x, y) && scanned_before(x, y, s, cx as int, cy as int, 0) && cell_has_textures(
                        *landscape_records,
                        x,
                        y,
                    ) && 0 <= s < 256 && #[trigger] tex_key(*landscape_records, x, y, s) == key,
            decreases dims.max_x + 1 - cx,
        {
            let x = cx as i32;
            let y = cy as i32;
            let mut used = false;
            if let Some(land) = landscape_records.get(x, y) {
                if land.has_texture_data() {
                    used = true;
                    let mut s: usize = 0;
                    while s < GRID_SIZE * GRID_SIZE
                        invariant
                            dims.wf(),
                            dims.contains(x as int, y as int),
                            landscape_records.lookup(x as int, y as int) == Some(*land),
                            has_textures(*land),
                            s <= 256,
                            keys@.no_duplicates(),
                            forall|key: u32| keys@.contains(key) <==> exists|a: int, b: int, t: int|
                                dims.contains(a, b) && scanned_before(a, b, t, x as int, y as int, s as int)
                                    && cell_has_textures(*landscape_records, a, b) && 0 <= t < 256
                                    && #[trigger] tex_key(*landscape_records, a, b, t) == key,
                        decreases 256 - s,
                    {
                        let key = land.texture_indices[s] as u32;
                        let ghost before = keys@;
                        let mut found = false;
                        let mut i: usize = 0;
                        while i < keys.len()
                            invariant
                                i <= keys.len(),
                                found <==> exists|j: int| 0 <= j < i && keys@[j] == key,
                            decreases keys.len() - i,
                        {
                            if keys[i] == key {
                                found = true;
                            }
                            i = i + 1;
                        }
                        assert(tex_key(*landscape_records, x as int, y as int, s as int) == key);
                        if !found {
                            keys.push(key);
                            proof {
                                assert forall|a: int, b: int| 0 <= a < keys@.len() && 0 <= b < keys@.len() && a != b implies keys@[a] != keys@[b] by {
                                    if a == before.len() {
                                        assert(keys@[b] == before[b]);
                                    } else if b == before.len() {
                                        assert(keys@[a] == before[a]);
                                    } else {
                                        assert(keys@[a] == before[a] && keys@[b] == before[b]);
                                    }
                                }
                                assert forall|k: u32| keys@.contains(k) <==> (before.contains(k) || k == key) by {
                                    if keys@.contains(k) && k != key {
                                        let j = choose|j: int| 0 <= j < keys@.len() && keys@[j] == k;
                                        assert(before[j] == k);
                                    }
                                    if k == key {
                                        assert(keys@[before.len() as int] == key);
                                    }
                                    if before.contains(k) {
                                        let j = choose|j: int| 0 <= j < before.len() && before[j] == k;
                                        assert(keys@[j] == k);
                                    }
                                }
                            }
                        }
                        proof {
                            assert forall|k: u32| keys@.contains(k) <==> exists|a: int, b: int, t: int|
                                dims.contains(a, b) && scanned_before(a, b, t, x as int, y as int, s + 1)
                                    && cell_has_textures(*landscape_records, a, b) && 0 <= t < 256
                                    && #[trigger] tex_key(*landscape_records, a, b, t) == k by {
                                if keys@.contains(k) && k == key {
                                    assert(scanned_before(x as int, y as int, s as int, x as int, y as int, s + 1));
                                    assert(cell_has_textures(*landscape_records, x as int, y as int));
                                }
                                if keys@.contains(k) && k != key {
                                    assert(before.contains(k));
                                    let (a, b, t) = choose|a: int, b: int, t: int|
                                        dims.contains(a, b) && scanned_before(a, b, t, x as int, y as int, s as int)
                                            && cell_has_textures(*landscape_records, a, b) && 0 <= t < 256
                                            && #[trigger] tex_key(*landscape_records, a, b, t) == k;
                                    assert(scanned_before(a, b, t, x as int, y as int, s + 1));
                                }
                                if exists|a: int, b: int, t: int|
                                    dims.contains(a, b) && scanned_before(a, b, t, x as int, y as int, s + 1)
                                        && cell_has_textures(*landscape_records, a, b) && 0 <= t < 256
                                        && #[trigger] tex_key(*landscape_records, a, b, t) == k {
                                    let (a, b, t) = choose|a: int, b: int, t: int|
                                        dims.contains(a, b) && scanned_before(a, b, t, x as int, y as int, s + 1)
                                            && cell_has_textures(*landscape_records, a, b) && 0 <= t < 256
                                            && #[trigger] tex_key(*landscape_records, a, b, t) == k;
                                    if scanned_before(a, b, t, x as int, y as int, s as int) {
                                        assert(before.contains(k));
                                        if !found {
                                            assert(keys@.contains(k));
                                        }
                                    } else {
                                        assert(a == x && b == y && t == s);
                                        assert(k == key);
                                        if !found {
                                            assert(keys@[keys.len() - 1] == key);
                                        } else {
                                            let j = choose|j: int| 0 <= j < keys@.len() && keys@[j] == key;
                                            assert(keys@.contains(key));
                                        }
                                    }
                                }
                            }
                        }
                        s = s + 1;
                    }
                }
            }
            proof {
                assert forall|k: u32| keys@.contains(k) <==> exists|a: int, b: int, t: int|
                    dims.contains(a, b) && scanned_before(a, b, t, cx + 1, cy as int, 0) && cell_has_textures(
                        *landscape_records,
                        a,
                        b,
                    ) && 0 <= t < 256 && #[trigger] tex_key(*landscape_records, a, b, t) == k by {
                    if exists|a: int, b: int, t: int|
                        dims.contains(a, b) && scanned_before(a, b, t, cx + 1, cy as int, 0) && cell_has_textures(
                            *landscape_records,
                            a,
                            b,
                        ) && 0 <= t < 256 && #[trigger] tex_key(*landscape_records, a, b, t) == k {
                        let (a, b, t) = choose|a: int, b: int, t: int|
                            dims.contains(a, b) && scanned_before(a, b, t, cx + 1, cy as int, 0) && cell_has_textures(
                                *landscape_records,
                                a,
                                b,
                            ) && 0 <= t < 256 && #[trigger] tex_key(*landscape_records, a, b, t) == k;
                        if a == cx && b == cy {
                            assert(used);
                            assert(scanned_before(a, b, t, x as int, y as int, 256));
                        } else {
                            assert(scanned_before(a, b, t, cx as int, cy as int, 0));
                        }
                    }
                    if keys@.contains(k) && !used {
                        let (a, b, t) = choose|a: int, b: int, t: int|
                            dims.contains(a, b) && scanned_before(a, b, t, cx as int, cy as int, 0)
                                && cell_has_textures(*landscape_records, a, b) && 0 <= t < 256
                                && #[trigger] tex_key(*landscape_records, a, b, t) == k;
                        assert(scanned_before(a, b, t, cx + 1, cy as int, 0));
                    }
                    if keys@.contains(k) && used {
                        let (a, b, t) = choose|a: int, b: int, t: int|
                            dims.contains(a, b) && scanned_before(a, b, t, x as int, y as int, 256)
                                && cell_has_textures(*landscape_records, a, b) && 0 <= t < 256
                                && #[trigger] tex_key(*landscape_records, a, b, t) == k;
                        assert(scanned_before(a, b, t, cx + 1, cy as int, 0));
                    }
                }
            }
            cx = cx + 1;
        }
        proof {
            assert forall|k: u32| keys@.contains(k) <==> exists|a: int, b: int, t: int|
                dims.contains(a, b) && b < cy + 1 && cell_has_textures(*landscape_records, a, b) && 0 <= t < 256
                    && #[trigger] tex_key(*landscape_records, a, b, t) == k by {
                if exists|a: int, b: int, t: int|
                    dims.contains(a, b) && b < cy + 1 && cell_has_textures(*landscape_records, a, b) && 0 <= t < 256
                        && #[trigger] tex_key(*landscape_records, a, b, t) == k {
                    let (a, b, t) = choose|a: int, b: int, t: int|
                        dims.contains(a, b) && b < cy + 1 && cell_has_textures(*landscape_records, a, b) && 0 <= t
                            < 256 && #[trigger] tex_key(*landscape_records, a, b, t) == k;
                    assert(scanned_before(a, b, t, cx as int, cy as int, 0));
                }
                if keys@.contains(k) {
                    let (a, b, t) = choose|a: int, b: int, t: int|
                        dims.contains(a, b) && scanned_before(a, b, t, cx as int, cy as int, 0)
                            && cell_has_textures(*landscape_records, a, b) && 0 <= t < 256
                            && #[trigger] tex_key(*landscape_records, a, b, t) == k;
                    assert(b < cy + 1);
                }
            }
        }
        cy = cy + 1;
    }
    keys
}

/// A cell without texture data shows the default colour over its whole block.
pub proof fn lemma_untextured_cell_is_default(
    records: CellMap<Landscape>,
    dims: Dimensions,
    textures: Map<u32, Texture>,
    heights: Seq<i64>,
    tx: int,
    ty: int,
)
    requires
        !cell_has_textures(
            records,
            dims.min_x + tx / dims.spec_cell_size(),
            dims.max_y - ty / dims.spec_cell_size(),
        ),
    ensures
        texture_pixel(records, dims, textures, heights, tx, ty) == spec_default_color(),
{
}

} // verus!
