use vstd::prelude::*;
use crate::cell_map::CellMap;
use crate::geometry::{lemma_row_major, lemma_row_major_bound, Dimensions, VERTEX_CNT};
use crate::terrain::{has_heights, Landscape};

verus! {

/// Storage units to world units.
pub const HEIGHT_SCALE: i64 = 8;

/// Samples in one cell's height grid.
pub const CELL_SAMPLES: usize = 4225;

/// The global elevation range of a decoded dataset.
#[derive(Clone, Copy, Debug, PartialEq, Eq, Structural)]
pub struct DimensionsZ {
    pub min_z: i64,
    pub max_z: i64,
}

/// Running height, in storage units, after sample `(r, c)` of a delta grid:
/// each row starts from the first height of the row before (the first row from
/// `offset`) and adds its deltas left to right.
pub open spec fn raw_height(d: Seq<i8>, offset: int, r: nat, c: nat) -> int
    decreases r, c,
{
    if c > 0 {
        raw_height(d, offset, r, (c - 1) as nat) + d[(r * 65 + c) as int]
    } else if r > 0 {
        raw_height(d, offset, (r - 1) as nat, 0) + d[(r * 65) as int]
    } else {
        offset + d[0]
    }
}

/// World height of sample `k` (row `k / 65`, column `k % 65`) of a record.
pub open spec fn sample(l: Landscape, k: int) -> int {
    HEIGHT_SCALE * raw_height(l.height_deltas@, l.height_offset as int, (k / 65) as nat, (k % 65) as nat)
}

/// The decoded height grid of a record, row-major.
pub open spec fn decoded(l: Landscape) -> Seq<i64> {
    Seq::new(CELL_SAMPLES as nat, |k: int| sample(l, k) as i64)
}

proof fn lemma_raw_bound(d: Seq<i8>, offset: int, r: nat, c: nat)
    requires
        r < 65,
        c < 65,
        d.len() == CELL_SAMPLES,
    ensures
        offset - 128 * (r + c + 1) <= raw_height(d, offset, r, c) <= offset + 128 * (r + c + 1),
    decreases r, c,
{
    if c > 0 {
        lemma_raw_bound(d, offset, r, (c - 1) as nat);
    } else if r > 0 {
        lemma_raw_bound(d, offset, (r - 1) as nat, 0);
    }
}

proof fn lemma_raw_zero_deltas(d: Seq<i8>, offset: int, r: nat, c: nat)
    requires
        r < 65,
        c < 65,
        d.len() == CELL_SAMPLES,
        forall|i: int| 0 <= i < d.len() ==> d[i] == 0,
    ensures
        raw_height(d, offset, r, c) == offset,
    decreases r, c,
{
    if c > 0 {
        lemma_raw_zero_deltas(d, offset, r, (c - 1) as nat);
    } else if r > 0 {
        lemma_raw_zero_deltas(d, offset, (r - 1) as nat, 0);
    }
}

/// A record whose deltas are all zero decodes to its base offset, scaled to
/// world units, at every sample.
pub proof fn lemma_flat_cell(l: Landscape)
    requires
        has_heights(l),
        forall|i: int| 0 <= i < l.height_deltas.len() ==> l.height_deltas@[i] == 0,
    ensures
        forall|k: int| 0 <= k < CELL_SAMPLES ==> #[trigger] sample(l, k) == HEIGHT_SCALE * l.height_offset,
        forall|k: int| 0 <= k < CELL_SAMPLES ==> #[trigger] decoded(l)[k] == HEIGHT_SCALE * l.height_offset,
{
    assert forall|k: int| 0 <= k < CELL_SAMPLES implies #[trigger] sample(l, k) == HEIGHT_SCALE * l.height_offset by {
        lemma_raw_zero_deltas(l.height_deltas@, l.height_offset as int, (k / 65) as nat, (k % 65) as nat);
    }
    assert forall|k: int| 0 <= k < CELL_SAMPLES implies #[trigger] decoded(l)[k] == HEIGHT_SCALE * l.height_offset by {
        assert(sample(l, k) == HEIGHT_SCALE * l.height_offset);
    }
}

/// Decodes the delta grid of a record into world heights, row-major.
pub fn decode_heights(l: &Landscape) -> (out: Vec<i64>)
    requires
        has_heights(*l),
    ensures
        out@ == decoded(*l),
{
    let d = &l.height_deltas;
    let mut out: Vec<i64> = Vec::with_capacity(CELL_SAMPLES);
    let mut row_start: i64 = l.height_offset as i64;
    let mut r: usize = 0;
    while r < VERTEX_CNT
        invariant
            d@ == l.height_deltas@,
            d.len() == CELL_SAMPLES,
            r <= 65,
            out.len() == r * 65,
            r == 0 ==> row_start == l.height_offset,
            r > 0 ==> row_start == raw_height(d@, l.height_offset as int, (r - 1) as nat, 0),
            forall|k: int| 0 <= k < out.len() ==> #[trigger] out@[k] == sample(*l, k),
        decreases 65 - r,
    {
        let mut acc: i64 = row_start;
        let mut first: i64 = 0;
        let mut c: usize = 0;
        while c < VERTEX_CNT
            invariant
                d@ == l.height_deltas@,
                d.len() == CELL_SAMPLES,
                r < 65,
                c <= 65,
                out.len() == r * 65 + c,
                c == 0 ==> acc == row_start,
                c > 0 ==> acc == raw_height(d@, l.height_offset as int, r as nat, (c - 1) as nat),
                c > 0 ==> first == raw_height(d@, l.height_offset as int, r as nat, 0),
                r == 0 ==> row_start == l.height_offset,
                r > 0 ==> row_start == raw_height(d@, l.height_offset as int, (r - 1) as nat, 0),
                forall|k: int| 0 <= k < out.len() ==> #[trigger] out@[k] == sample(*l, k),
            decreases 65 - c,
        {
            proof {
                lemma_raw_bound(d@, l.height_offset as int, r as nat, c as nat);
                lemma_row_major((r * 65 + c) as int, 65, r as int, c as int);
            }
            acc = acc + d[r * VERTEX_CNT + c] as i64;
            if c == 0 {
                first = acc;
            }
            out.push(acc * HEIGHT_SCALE);
            c = c + 1;
        }
        row_start = first;
        r = r + 1;
    }
    assert(out@ =~= decoded(*l));
    out
}

/// Cell `(x, y)` holds a record with a complete height grid.
pub open spec fn cell_has_heights(records: CellMap<Landscape>, x: int, y: int) -> bool {
    records.lookup(x, y) matches Some(l) && has_heights(l)
}

/// No cell inside the rectangle carries height data.
pub open spec fn no_height_data(records: CellMap<Landscape>, dims: Dimensions) -> bool {
    forall|x: int, y: int| dims.contains(x, y) ==> !#[trigger] cell_has_heights(records, x, y)
}

/// `z` is one of the decoded samples of a cell inside the rectangle.
pub open spec fn is_sample_of(records: CellMap<Landscape>, dims: Dimensions, z: int) -> bool {
    exists|x: int, y: int, k: int|
        dims.contains(x, y) && cell_has_heights(records, x, y) && 0 <= k < CELL_SAMPLES && z
            == #[trigger] sample(records.lookup(x, y)->Some_0, k)
}

/// Every decoded sample of the cells inside the rectangle lies in `[lo, hi]`.
pub open spec fn samples_within(records: CellMap<Landscape>, dims: Dimensions, lo: int, hi: int) -> bool {
    forall|x: int, y: int, k: int|
        dims.contains(x, y) && cell_has_heights(records, x, y) && 0 <= k < CELL_SAMPLES ==> lo
            <= #[trigger] sample(records.lookup(x, y)->Some_0, k) <= hi
}

/// Pixel `(tx, ty)` of the elevation buffer: the sample of the cell under it,
/// with each cell's rows in reverse order (the first stored row at the bottom
/// of the cell's block), or `min_z - 1` where the cell has no heights.
pub open spec fn elevation_pixel(records: CellMap<Landscape>, dims: Dimensions, min_z: int, tx: int, ty: int) -> int {
    let x = dims.min_x + tx / 65;
    let y = dims.max_y - ty / 65;
    if cell_has_heights(records, x, y) {
        sample(records.lookup(x, y)->Some_0, (64 - ty % 65) * 65 + tx % 65)
    } else {
        min_z - 1
    }
}

proof fn lemma_sample_bound(l: Landscape, k: int)
    requires
        has_heights(l),
        0 <= k < CELL_SAMPLES,
    ensures
        -0x100_0000_0000 < sample(l, k) < 0x100_0000_0000,
{
    lemma_raw_bound(l.height_deltas@, l.height_offset as int, (k / 65) as nat, (k % 65) as nat);
}

/// Smallest and largest element of a non-empty vector, with their positions.
fn min_max(v: &Vec<i64>) -> (r: (i64, usize, i64, usize))
    requires
        v.len() > 0,
    ensures
        r.1 < v.len(),
        r.3 < v.len(),
        v@[r.1 as int] == r.0,
        v@[r.3 as int] == r.2,
        forall|k: int| 0 <= k < v.len() ==> r.0 <= #[trigger] v@[k] <= r.2,
{
    let mut lo = v[0];
    let mut lo_i: usize = 0;
    let mut hi = v[0];
    let mut hi_i: usize = 0;
    let mut i: usize = 1;
    while i < v.len()
        invariant
            1 <= i <= v.len(),
            lo_i < i,
            hi_i < i,
            v@[lo_i as int] == lo,
            v@[hi_i as int] == hi,
            forall|k: int| 0 <= k < i ==> lo <= #[trigger] v@[k] <= hi,
        decreases v.len() - i,
    {
        if v[i] < lo {
            lo = v[i];
            lo_i = i;
        }
        if v[i] > hi {
            hi = v[i];
            hi_i = i;
        }
        i = i + 1;
    }
    (lo, lo_i, hi, hi_i)
}

spec fn map_pixel(hm: CellMap<Vec<i64>>, dims: Dimensions, min_z: int, tx: int, ty: int) -> int {
    let x = dims.min_x + tx / 65;
    let y = dims.max_y - ty / 65;
    match hm.lookup(x, y) {
        Some(v) => v@[(64 - ty % 65) * 65 + tx % 65] as int,
        None => min_z - 1,
    }
}

/// Cell column and row of a pixel of a raster with `n` samples per cell edge.
pub(crate) proof fn lemma_pixel_cell(dims: Dimensions, n: int, tx: int, ty: int)
    requires
        dims.wf(),
        n >= 1,
        0 <= tx < dims.spec_width() * n,
        0 <= ty < dims.spec_height() * n,
    ensures
        0 <= tx / n < dims.spec_width(),
        0 <= ty / n < dims.spec_height(),
        0 <= tx % n < n,
        0 <= ty % n < n,
        dims.contains(dims.min_x + tx / n, dims.max_y - ty / n),
{
    let w = dims.spec_width();
    let h = dims.spec_height();
    assert(0 <= tx / n < w) by (nonlinear_arith)
        requires
            n >= 1,
            0 <= tx < w * n,
    ;
    assert(0 <= ty / n < h) by (nonlinear_arith)
        requires
            n >= 1,
            0 <= ty < h * n,
    ;
}

/// Assembles the decoded grids into one elevation buffer over the whole
/// rectangle, `VERTEX_CNT` samples per cell edge.
fn height_map_to_pixel_heights(dims: &Dimensions, dims_z: DimensionsZ, hm: &CellMap<Vec<i64>>) -> (out: Vec<i64>)
    requires
        dims.wf(),
        hm.wf(),
        dims_z.min_z > i64::MIN,
        forall|x: int, y: int| #[trigger] hm.lookup(x, y) matches Some(v) ==> v.len() == CELL_SAMPLES,
    ensures
        out.len() == dims.spec_width() * 65 * (dims.spec_height() * 65),
        forall|j: int|
            0 <= j < out.len() ==> #[trigger] out@[j] == map_pixel(
                *hm,
                *dims,
                dims_z.min_z as int,
                j % (dims.spec_width() * 65),
                j / (dims.spec_width() * 65),
            ),
{
    let w = dims.pixel_width(VERTEX_CNT);
    let h = dims.pixel_height(VERTEX_CNT);
    let mut out: Vec<i64> = Vec::with_capacity(dims.pixel_size(VERTEX_CNT));
    let mut ty: usize = 0;
    while ty < h
        invariant
            dims.wf(),
            hm.wf(),
            dims_z.min_z > i64::MIN,
            forall|x: int, y: int| #[trigger] hm.lookup(x, y) matches Some(v) ==> v.len() == CELL_SAMPLES,
            w == dims.spec_width() * 65,
            h == dims.spec_height() * 65,
            ty <= h,
            out.len() == ty * w,
            forall|j: int|
                0 <= j < out.len() ==> #[trigger] out@[j] == map_pixel(*hm, *dims, dims_z.min_z as int, j % (w as int), j / (w as int)),
        decreases h - ty,
    {
        let mut tx: usize = 0;
        while tx < w
            invariant
                dims.wf(),
                hm.wf(),
                dims_z.min_z > i64::MIN,
                forall|x: int, y: int| #[trigger] hm.lookup(x, y) matches Some(v) ==> v.len() == CELL_SAMPLES,
                w == dims.spec_width() * 65,
                h == dims.spec_height() * 65,
                ty < h,
                tx <= w,
                out.len() == ty * w + tx,
                forall|j: int|
                    0 <= j < out.len() ==> #[trigger] out@[j] == map_pixel(*hm, *dims, dims_z.min_z as int, j % (w as int), j / (w as int)),
            decreases w - tx,
        {
            proof {
                lemma_pixel_cell(*dims, 65, tx as int, ty as int);
                lemma_row_major((ty * w + tx) as int, w as int, ty as int, tx as int);
            }
            let x = dims.transform_to_cell_x(tx / VERTEX_CNT);
            let y = dims.transform_to_cell_y(ty / VERTEX_CNT);
            let value = match hm.get(x, y) {
                Some(cell) => cell[(64 - ty % VERTEX_CNT) * VERTEX_CNT + tx % VERTEX_CNT],
                None => dims_z.min_z - 1,
            };
            out.push(value);
            tx = tx + 1;
        }
        assert((ty + 1) * w == ty * w + w) by (nonlinear_arith);
        ty = ty + 1;
    }
    assert(h * w == w * h) by (nonlinear_arith);
    out
}

/// Decodes the height grid of every cell inside the rectangle and assembles
/// the elevation buffer, `VERTEX_CNT` samples per cell edge, together with the
/// global elevation range. Returns `None` when no cell inside the rectangle
/// carries height data.
pub fn calculate_heights(records: &CellMap<Landscape>, dims: &Dimensions) -> (r: Option<(Vec<i64>, DimensionsZ)>)
    requires
        dims.wf(),
        records.wf(),
    ensures
        r is None <==> no_height_data(*records, *dims),
        r matches Some((buf, dz)) ==> {
            &&& is_sample_of(*records, *dims, dz.min_z as int)
            &&& is_sample_of(*records, *dims, dz.max_z as int)
            &&& samples_within(*records, *dims, dz.min_z as int, dz.max_z as int)
            &&& buf.len() == dims.spec_width() * 65 * (dims.spec_height() * 65)
            &&& forall|j: int|
                0 <= j < buf.len() ==> #[trigger] buf@[j] == elevation_pixel(
                    *records,
                    *dims,
                    dz.min_z as int,
                    j % (dims.spec_width() * 65),
                    j / (dims.spec_width() * 65),
                )
        },
{
    let mut hm: CellMap<Vec<i64>> = CellMap::new(dims);
    let mut min_z: Option<i64> = None;
    let mut max_z: Option<i64> = None;
    let ghost mut lo_w: (int, int, int) = (0, 0, 0);
    let ghost mut hi_w: (int, int, int) = (0, 0, 0);
    let mut cy: i64 = dims.min_y as i64;
    while cy <= dims.max_y as i64
        invariant
            dims.wf(),
            records.wf(),
            hm.wf(),
            dims.min_y <= cy <= dims.max_y + 1,
            forall|x: int, y: int| hm.in_rect(x, y) <==> dims.contains(x, y),
            forall|x: int, y: int| #[trigger] hm.lookup(x, y) matches Some(v) ==> v.len() == CELL_SAMPLES,
            forall|x: int, y: int|
                #![trigger hm.lookup(x, y)]
                dims.contains(x, y) ==> (hm.lookup(x, y) is Some <==> (y < cy && cell_has_heights(*records, x, y))),
            forall|x: int, y: int|
                #![trigger hm.lookup(x, y)]
                hm.lookup(x, y) is Some ==> hm.lookup(x, y)->Some_0@ == decoded(records.lookup(x, y)->Some_0),
            min_z is Some <==> max_z is Some,
            min_z is None ==> forall|x: int, y: int|
                dims.contains(x, y) && y < cy ==> !#[trigger] cell_has_heights(*records, x, y),
            min_z matches Some(m) ==> {
                &&& dims.contains(lo_w.0, lo_w.1) && cell_has_heights(*records, lo_w.0, lo_w.1)
                &&& 0 <= lo_w.2 < CELL_SAMPLES
                &&& m == sample(records.lookup(lo_w.0, lo_w.1)->Some_0, lo_w.2)
            },
            max_z matches Some(m) ==> {
                &&& dims.contains(hi_w.0, hi_w.1) && cell_has_heights(*records, hi_w.0, hi_w.1)
                &&& 0 <= hi_w.2 < CELL_SAMPLES
                &&& m == sample(records.lookup(hi_w.0, hi_w.1)->Some_0, hi_w.2)
            },
            min_z matches Some(lo) ==> max_z matches Some(hi) ==> forall|x: int, y: int, k: int|
                dims.contains(x, y) && y < cy && cell_has_heights(*records, x, y) && 0 <= k < CELL_SAMPLES
                    ==> lo <= #[trigger] sample(records.lookup(x, y)->Some_0, k) <= hi,
        decreases dims.max_y + 1 - cy,
    {
        let mut cx: i64 = dims.min_x as i64;
        while cx <= dims.max_x as i64
            invariant
                dims.wf(),
                records.wf(),
                hm.wf(),
                dims.min_y <= cy <= dims.max_y,
                dims.min_x <= cx <= dims.max_x + 1,
                forall|x: int, y: int| hm.in_rect(x, y) <==> dims.contains(x, y),
                forall|x: int, y: int| #[trigger] hm.lookup(x, y) matches Some(v) ==> v.len() == CELL_SAMPLES,
                forall|x: int, y: int|
                    #![trigger hm.lookup(x, y)]
                    dims.contains(x, y) ==> (hm.lookup(x, y) is Some <==> ((y < cy || (y == cy && x < cx))
                        && cell_has_heights(*records, x, y))),
                forall|x: int, y: int|
                    #![trigger hm.lookup(x, y)]
                    hm.lookup(x, y) is Some ==> hm.lookup(x, y)->Some_0@ == decoded(records.lookup(x, y)->Some_0),
                min_z is Some <==> max_z is Some,
                min_z is None ==> forall|x: int, y: int|
                    dims.contains(x, y) && (y < cy || (y == cy && x < cx)) ==> !#[trigger] cell_has_heights(*records, x, y),
                min_z matches Some(m) ==> {
                    &&& dims.contains(lo_w.0, lo_w.1) && cell_has_heights(*records, lo_w.0, lo_w.1)
                    &&& 0 <= lo_w.2 < CELL_SAMPLES
                    &&& m == sample(records.lookup(lo_w.0, lo_w.1)->Some_0, lo_w.2)
                },
                max_z matches Some(m) ==> {
                    &&& dims.contains(hi_w.0, hi_w.1) && cell_has_heights(*records, hi_w.0, hi_w.1)
                    &&& 0 <= hi_w.2 < CELL_SAMPLES
                    &&& m == sample(records.lookup(hi_w.0, hi_w.1)->Some_0, hi_w.2)
                },
                min_z matches Some(lo) ==> max_z matches Some(hi) ==> forall|x: int, y: int, k: int|
                    dims.contains(x, y) && (y < cy || (y == cy && x < cx)) && cell_has_heights(*records, x, y)
                        && 0 <= k < CELL_SAMPLES ==> lo <= #[trigger] sample(records.lookup(x, y)->Some_0, k) <= hi,
            decreases dims.max_x + 1 - cx,
        {
            let x = cx as i32;
            let y = cy as i32;
            match records.get(x, y) {
                Some(land) => {
                    if land.has_height_data() {
                        let heights = decode_heights(land);
                        let (lo, lo_k, hi, hi_k) = min_max(&heights);
                        proof {
                            lemma_sample_bound(*land, lo_k as int);
                            lemma_sample_bound(*land, hi_k as int);
                            assert(heights@[lo_k as int] == sample(*land, lo_k as int));
                            assert(heights@[hi_k as int] == sample(*land, hi_k as int));
                            assert forall|k: int| 0 <= k < CELL_SAMPLES implies lo <= #[trigger] sample(*land, k) <= hi by {
                                lemma_sample_bound(*land, k);
                                assert(heights@[k] == sample(*land, k));
                            }
                        }
                        match min_z {
                            Some(m) => {
                                if lo < m {
                                    min_z = Some(lo);
                                    proof { lo_w = (x as int, y as int, lo_k as int); }
                                }
                            },
                            None => {
                                min_z = Some(lo);
                                proof { lo_w = (x as int, y as int, lo_k as int); }
                            },
                        }
                        match max_z {
                            Some(m) => {
                                if hi > m {
                                    max_z = Some(hi);
                                    proof { hi_w = (x as int, y as int, hi_k as int); }
                                }
                            },
                            None => {
                                max_z = Some(hi);
                                proof { hi_w = (x as int, y as int, hi_k as int); }
                            },
                        }
                        hm.insert(x, y, heights);
                    }
                },
                None => {},
            }
            cx = cx + 1;
        }
        cy = cy + 1;
    }
    let lo = match min_z {
        Some(m) => m,
        None => {
            return None;
        },
    };
    let hi = match max_z {
        Some(m) => m,
        None => {
            return None;
        },
    };
    let dz = DimensionsZ { min_z: lo, max_z: hi };
    proof {
        lemma_sample_bound(records.lookup(lo_w.0, lo_w.1)->Some_0, lo_w.2);
    }
    let buf = height_map_to_pixel_heights(dims, dz, &hm);
    proof {
        let w = dims.spec_width() * 65;
        assert forall|j: int| 0 <= j < buf.len() implies #[trigger] buf@[j] == elevation_pixel(
            *records,
            *dims,
            lo as int,
            j % w,
            j / w,
        ) by {
            let tx = j % w;
            let ty = j / w;
            let h = dims.spec_height() * 65;
            assert(0 <= tx < w && 0 <= ty < h) by (nonlinear_arith)
                requires
                    w >= 1,
                    0 <= j < w * h,
                    tx == j % w,
                    ty == j / w,
            ;
            lemma_pixel_cell(*dims, 65, tx, ty);
            let x = dims.min_x + tx / 65;
            let y = dims.max_y - ty / 65;
            assert(hm.lookup(x, y) is Some <==> cell_has_heights(*records, x, y));
            if cell_has_heights(*records, x, y) {
                let k = (64 - ty % 65) * 65 + tx % 65;
                assert(0 <= k < CELL_SAMPLES);
                assert(hm.lookup(x, y)->Some_0@[k] == decoded(records.lookup(x, y)->Some_0)[k]);
                lemma_sample_bound(records.lookup(x, y)->Some_0, k);
            }
        }
        assert(is_sample_of(*records, *dims, lo as int)) by {
            let l = records.lookup(lo_w.0, lo_w.1)->Some_0;
            assert(lo == sample(l, lo_w.2));
        }
        assert(is_sample_of(*records, *dims, hi as int)) by {
            let l = records.lookup(hi_w.0, hi_w.1)->Some_0;
            assert(hi == sample(l, hi_w.2));
        }
    }
    Some((buf, dz))
}

/// The elevation at vertex `(x, y)` of an elevation buffer of `VERTEX_CNT`
/// samples per cell edge, if the vertex lies inside the buffer.
pub open spec fn spec_height_at(heights: Seq<i64>, dims: Dimensions, x: int, y: int) -> Option<i64> {
    let w = dims.spec_width() * 65;
    if 0 <= x < w && 0 <= y < dims.spec_height() * 65 && y * w + x < heights.len() {
        Some(heights[y * w + x])
    } else {
        None
    }
}

/// The elevation at vertex `(x, y)` of the elevation buffer, `None` outside it.
pub fn height_from_screen_space(heights: &Vec<i64>, dims: &Dimensions, x: usize, y: usize) -> (r: Option<i64>)
    requires
        dims.wf(),
    ensures
        r == spec_height_at(heights@, *dims, x as int, y as int),
{
    let w = dims.pixel_width(VERTEX_CNT);
    let h = dims.pixel_height(VERTEX_CNT);
    if x >= w || y >= h {
        return None;
    }
    proof {
        lemma_row_major_bound(w as int, h as int, y as int, x as int);
        assert(h * w == w * h) by (nonlinear_arith);
    }
    let i = y * w + x;
    if i < heights.len() {
        Some(heights[i])
    } else {
        None
    }
}

} // verus!
