use vstd::prelude::*;
use crate::cell_map::CellMap;
use crate::color::{from_rgb, gamma_multiply, opaque, spec_scale, Rgba};
use crate::geometry::{lemma_row_major, CellKey, Dimensions, VERTEX_CNT};
use crate::region_color::{region_color, spec_region_color};
use crate::terrain::{has_region, CellRecord};
use vstd::string::StringSliceAdditionalSpecFns;

verus! {

/// An intervention site: the seed cell of a territory.
#[derive(Debug)]
pub struct Site {
    pub key: CellKey,
    /// Name of the seed cell.
    pub name: String,
    /// Region the seed cell belongs to, if any.
    pub region: Option<String>,
}

/// A unit segment between two lattice points of the world grid; cell `(x, y)`
/// covers the square from `(x, y)` to `(x + 1, y + 1)`.
#[derive(Clone, Copy, Debug, PartialEq, Eq, Structural)]
pub struct Edge {
    pub x0: i64,
    pub y0: i64,
    pub x1: i64,
    pub y1: i64,
}

/// Glyph drawn on a site.
#[derive(Clone, Copy, Debug, PartialEq, Eq, Structural)]
pub enum MarkerKind {
    Circle,
    Triangle,
    Nonagon,
    Bird,
}

/// A vector shape of the territory overlay, in world-grid coordinates.
#[derive(Clone, Copy, Debug, PartialEq, Eq)]
pub enum Shape {
    /// The square of one cell, filled.
    CellFill { cell: CellKey, color: Rgba },
    /// One unit segment of a territory's outline.
    Outline { edge: Edge },
    /// The Voronoi cell of a site among all sites, filled, with a dark stroke.
    VoronoiCell { site: CellKey, color: Rgba },
    /// The glyph of a site.
    Marker { site: CellKey, kind: MarkerKind, fill: Rgba },
}

pub open spec fn abs(v: int) -> int {
    if v < 0 {
        -v
    } else {
        v
    }
}

pub open spec fn max(a: int, b: int) -> int {
    if a >= b {
        a
    } else {
        b
    }
}

/// Chebyshev (king-move) distance of offset `(dx, dy)`.
pub open spec fn king_distance(dx: int, dy: int) -> int {
    max(abs(dx), abs(dy))
}

/// Place of offset `(dx, dy)` on its ring of the clockwise spiral: the ring
/// at distance `d` is walked from its north-west corner east along the top,
/// south down the east side, west along the bottom and north up the west side.
pub open spec fn ring_position(dx: int, dy: int) -> int {
    let d = king_distance(dx, dy);
    if d == 0 {
        0
    } else if dy == d && dx < d {
        dx + d
    } else if dx == d && dy > -d {
        3 * d - dy
    } else if dy == -d && dx > -d {
        5 * d - dx
    } else {
        7 * d + dy
    }
}

/// Site `a` comes before site `b` on the spiral walked outward from `cell`:
/// it is nearer, or as near and earlier on its ring.
pub open spec fn precedes(cell: CellKey, a: CellKey, b: CellKey) -> bool {
    let (ax, ay) = (a.0 - cell.0, a.1 - cell.1);
    let (bx, by) = (b.0 - cell.0, b.1 - cell.1);
    ||| king_distance(ax, ay) < king_distance(bx, by)
    ||| king_distance(ax, ay) == king_distance(bx, by) && ring_position(ax, ay) < ring_position(bx, by)
}

/// Index of the site first met on the spiral among the first `n` sites,
/// keeping the earlier index on a tie.
pub open spec fn best_index(keys: Seq<CellKey>, cell: CellKey, n: nat) -> int
    decreases n,
{
    if n <= 1 {
        0
    } else {
        let b = best_index(keys, cell, (n - 1) as nat);
        if precedes(cell, keys[n - 1], keys[b]) {
            n - 1
        } else {
            b
        }
    }
}

/// Site `i` comes before every other site on the spiral around `cell`.
pub open spec fn first_on_spiral(keys: Seq<CellKey>, cell: CellKey, i: int) -> bool {
    forall|j: int| 0 <= j < keys.len() && j != i ==> precedes(cell, keys[i], #[trigger] keys[j])
}

pub open spec fn site_keys(sites: Seq<Site>) -> Seq<CellKey> {
    sites.map_values(|s: Site| s.key)
}

/// The ring position lies on the ring: `8 d` places at distance `d > 0`.
pub proof fn lemma_ring_position_range(dx: int, dy: int)
    ensures
        king_distance(dx, dy) == 0 ==> ring_position(dx, dy) == 0,
        king_distance(dx, dy) > 0 ==> 0 <= ring_position(dx, dy) < 8 * king_distance(dx, dy),
{
}

/// Two different offsets at the same distance have different ring positions.
pub proof fn lemma_ring_position_injective(ax: int, ay: int, bx: int, by: int)
    requires
        king_distance(ax, ay) == king_distance(bx, by),
        ring_position(ax, ay) == ring_position(bx, by),
    ensures
        ax == bx && ay == by,
{
}

/// The spiral order is total on distinct sites.
pub proof fn lemma_precedes_total(cell: CellKey, a: CellKey, b: CellKey)
    requires
        a != b,
    ensures
        precedes(cell, a, b) || precedes(cell, b, a),
{
    if king_distance(a.0 - cell.0, a.1 - cell.1) == king_distance(b.0 - cell.0, b.1 - cell.1)
        && ring_position(a.0 - cell.0, a.1 - cell.1) == ring_position(b.0 - cell.0, b.1 - cell.1) {
        lemma_ring_position_injective(a.0 - cell.0, a.1 - cell.1, b.0 - cell.0, b.1 - cell.1);
    }
}

/// The chosen site is first on the spiral: no site among the first `n` comes
/// before it.
proof fn lemma_best_index_minimal(keys: Seq<CellKey>, cell: CellKey, n: nat)
    requires
        1 <= n <= keys.len(),
    ensures
        0 <= best_index(keys, cell, n) < n,
        forall|j: int| 0 <= j < n ==> !precedes(cell, #[trigger] keys[j], keys[best_index(keys, cell, n)]),
    decreases n,
{
    if n > 1 {
        lemma_best_index_minimal(keys, cell, (n - 1) as nat);
    }
}

/// Every cell has exactly one nearest site among distinct sites: the site
/// chosen comes strictly before every other one on the spiral, and no other
/// site does.
pub proof fn lemma_nearest_site_unique(keys: Seq<CellKey>, cell: CellKey)
    requires
        keys.len() >= 1,
        keys.no_duplicates(),
    ensures
        0 <= best_index(keys, cell, keys.len()) < keys.len(),
        forall|i: int|
            0 <= i < keys.len() ==> (#[trigger] first_on_spiral(keys, cell, i) <==> i == best_index(
                keys,
                cell,
                keys.len(),
            )),
{
    let w = best_index(keys, cell, keys.len());
    lemma_best_index_minimal(keys, cell, keys.len());
    assert forall|j: int| 0 <= j < keys.len() && j != w implies precedes(cell, keys[w], #[trigger] keys[j]) by {
        lemma_precedes_total(cell, keys[w], keys[j]);
    }
    assert forall|i: int| 0 <= i < keys.len() && i != w implies !#[trigger] first_on_spiral(keys, cell, i) by {
        assert(!precedes(cell, keys[i], keys[w]));
    }
}

/// The nearest site does not depend on the order of the site list: two lists
/// of the same distinct sites pick the same one.
pub proof fn lemma_nearest_site_order_independent(s1: Seq<CellKey>, s2: Seq<CellKey>, cell: CellKey)
    requires
        s1.len() >= 1,
        s1.no_duplicates(),
        s2.no_duplicates(),
        s1.to_set() == s2.to_set(),
    ensures
        s2.len() >= 1,
        s1[best_index(s1, cell, s1.len())] == s2[best_index(s2, cell, s2.len())],
{
    assert(s1.to_set().contains(s1[0]));
    assert(s2.contains(s1[0]));
    let w1 = best_index(s1, cell, s1.len());
    lemma_best_index_minimal(s1, cell, s1.len());
    lemma_best_index_minimal(s2, cell, s2.len());
    let w2 = best_index(s2, cell, s2.len());
    let a = s1[w1];
    let b = s2[w2];
    assert(s1.to_set().contains(a));
    assert(s2.contains(a));
    let ja = choose|j: int| 0 <= j < s2.len() && s2[j] == a;
    assert(s2.to_set().contains(b));
    assert(s1.contains(b));
    let jb = choose|j: int| 0 <= j < s1.len() && s1[j] == b;
    if a != b {
        lemma_precedes_total(cell, a, b);
        assert(!precedes(cell, s2[ja], b));
        assert(!precedes(cell, s1[jb], a));
    }
}

fn abs_i64(v: i64) -> (r: u64)
    requires
        v > i64::MIN,
    ensures
        r == abs(v as int),
{
    if v < 0 {
        (0 - v) as u64
    } else {
        v as u64
    }
}

/// Distance and ring position of `site` on the spiral around `cell`.
pub fn spiral_rank(cell: CellKey, site: CellKey) -> (r: (u64, u64))
    ensures
        r.0 == king_distance(site.0 - cell.0, site.1 - cell.1),
        r.1 == ring_position(site.0 - cell.0, site.1 - cell.1),
{
    let dx = site.0 as i64 - cell.0 as i64;
    let dy = site.1 as i64 - cell.1 as i64;
    let ax = abs_i64(dx);
    let ay = abs_i64(dy);
    let d = if ax >= ay { ax } else { ay };
    let di = d as i64;
    let p: i64 = if d == 0 {
        0
    } else if dy == di && dx < di {
        dx + di
    } else if dx == di && dy > -di {
        3 * di - dy
    } else if dy == -di && dx > -di {
        5 * di - dx
    } else {
        7 * di + dy
    };
    proof {
        lemma_ring_position_range(dx as int, dy as int);
    }
    (d, p as u64)
}

/// Whether site `node_b` comes before site `node_a` on the clockwise spiral
/// walked outward from `cell`, so that `node_b` should win a tie.
pub fn break_ties_todd_howard_spiral(cell: CellKey, node_a: CellKey, node_b: CellKey) -> (r: bool)
    ensures
        r == precedes(cell, node_b, node_a),
{
    let (da, pa) = spiral_rank(cell, node_a);
    let (db, pb) = spiral_rank(cell, node_b);
    db < da || (db == da && pb < pa)
}

/// Index of the site nearest to `cell` by king-move distance; among sites at
/// the same distance, the one met first on the clockwise spiral.
pub fn nearest_site(sites: &Vec<Site>, cell: CellKey) -> (r: usize)
    requires
        sites.len() >= 1,
    ensures
        r == best_index(site_keys(sites@), cell, sites.len() as nat),
        r < sites.len(),
{
    let ghost keys = site_keys(sites@);
    proof {
        lemma_best_index_minimal(keys, cell, sites.len() as nat);
    }
    let mut best: usize = 0;
    let mut i: usize = 1;
    while i < sites.len()
        invariant
            keys == site_keys(sites@),
            1 <= i <= sites.len(),
            best == best_index(keys, cell, i as nat),
            best < i,
        decreases sites.len() - i,
    {
        if break_ties_todd_howard_spiral(cell, sites[best].key, sites[i].key) {
            best = i;
        }
        i = i + 1;
    }
    best
}

/// The four sides of cell `(x, y)`: bottom, east, top, west.
pub open spec fn cell_edges(x: int, y: int) -> Seq<Edge> {
    seq![
        Edge { x0: x as i64, y0: y as i64, x1: (x + 1) as i64, y1: y as i64 },
        Edge { x0: (x + 1) as i64, y0: y as i64, x1: (x + 1) as i64, y1: (y + 1) as i64 },
        Edge { x0: x as i64, y0: (y + 1) as i64, x1: (x + 1) as i64, y1: (y + 1) as i64 },
        Edge { x0: x as i64, y0: y as i64, x1: x as i64, y1: (y + 1) as i64 },
    ]
}

/// The four sides of a cell's square, as unit segments.
pub fn rect_to_edges(cell: CellKey) -> (r: Vec<Edge>)
    ensures
        r@ == cell_edges(cell.0 as int, cell.1 as int),
{
    let x = cell.0 as i64;
    let y = cell.1 as i64;
    let r = vec![
        Edge { x0: x, y0: y, x1: x + 1, y1: y },
        Edge { x0: x + 1, y0: y, x1: x + 1, y1: y + 1 },
        Edge { x0: x, y0: y + 1, x1: x + 1, y1: y + 1 },
        Edge { x0: x, y0: y, x1: x, y1: y + 1 },
    ];
    assert(r@ =~= cell_edges(cell.0 as int, cell.1 as int));
    r
}

/// Occurrences of `e` in `s`.
pub open spec fn count_of(s: Seq<Edge>, e: Edge) -> nat
    decreases s.len(),
{
    if s.len() == 0 {
        0
    } else {
        count_of(s.drop_last(), e) + if s.last() == e {
            1nat
        } else {
            0nat
        }
    }
}

/// `u` lists, once each, exactly the segments that occur an odd number of
/// times in `list`.
pub open spec fn is_outline(u: Seq<Edge>, list: Seq<Edge>) -> bool {
    &&& u.no_duplicates()
    &&& forall|e: Edge| u.contains(e) <==> #[trigger] count_of(list, e) % 2 == 1
}

fn position_of(v: &Vec<Edge>, e: Edge) -> (r: Option<usize>)
    ensures
        r matches Some(p) ==> p < v.len() && v@[p as int] == e,
        r is None ==> !v@.contains(e),
{
    let mut i: usize = 0;
    while i < v.len()
        invariant
            i <= v.len(),
            forall|j: int| 0 <= j < i ==> v@[j] != e,
        decreases v.len() - i,
    {
        if v[i] == e {
            return Some(i);
        }
        i = i + 1;
    }
    None
}

proof fn lemma_swap_remove_unique(old: Seq<Edge>, p: int)
    requires
        old.no_duplicates(),
        0 <= p < old.len(),
    ensures
        old.update(p, old.last()).drop_last().no_duplicates(),
        !old.update(p, old.last()).drop_last().contains(old[p]),
        forall|f: Edge| f != old[p] ==> (#[trigger] old.update(p, old.last()).drop_last().contains(f) <==> old.contains(f)),
{
    let n = old.len();
    let new = old.update(p, old.last()).drop_last();
    assert forall|f: Edge| f != old[p] && old.contains(f) implies #[trigger] new.contains(f) by {
        let j = choose|j: int| 0 <= j < n && old[j] == f;
        if j == n - 1 {
            assert(new[p] == f);
        } else {
            assert(new[j] == f);
        }
    }
    assert forall|f: Edge| #[trigger] new.contains(f) implies old.contains(f) by {
        let j = choose|j: int| 0 <= j < new.len() && new[j] == f;
        if j == p {
            assert(old[n - 1] == f);
        } else {
            assert(old[j] == f);
        }
    }
    assert forall|i: int, j: int| 0 <= i < new.len() && 0 <= j < new.len() && i != j implies new[i] != new[j] by {
        if i == p {
            assert(new[i] == old[n - 1]);
            assert(new[j] == old[j]);
        } else if j == p {
            assert(new[j] == old[n - 1]);
            assert(new[i] == old[i]);
        } else {
            assert(new[i] == old[i]);
            assert(new[j] == old[j]);
        }
    }
    if new.contains(old[p]) {
        let j = choose|j: int| 0 <= j < new.len() && new[j] == old[p];
        if j == p {
            assert(old[n - 1] == old[p]);
        } else {
            assert(old[j] == old[p]);
        }
    }
}

/// Cancels segments pairwise: the result lists once each the segments that
/// occur an odd number of times in `edges`. Segments shared by two cells of
/// the same territory cancel, and its outline remains.
pub fn xor_edges(edges: &Vec<Edge>) -> (r: Vec<Edge>)
    ensures
        is_outline(r@, edges@),
{
    let mut uniq: Vec<Edge> = Vec::new();
    let mut i: usize = 0;
    while i < edges.len()
        invariant
            i <= edges.len(),
            uniq@.no_duplicates(),
            forall|f: Edge| uniq@.contains(f) <==> #[trigger] count_of(edges@.subrange(0, i as int), f) % 2 == 1,
        decreases edges.len() - i,
    {
        let e = edges[i];
        let ghost before = uniq@;
        match position_of(&uniq, e) {
            Some(p) => {
                proof {
                    lemma_swap_remove_unique(before, p as int);
                }
                uniq.swap_remove(p);
            },
            None => {
                uniq.push(e);
                proof {
                    assert forall|a: int, b: int| 0 <= a < uniq@.len() && 0 <= b < uniq@.len() && a != b implies uniq@[a] != uniq@[b] by {
                        if a == before.len() {
                            assert(uniq@[a] == e && uniq@[b] == before[b]);
                        } else if b == before.len() {
                            assert(uniq@[b] == e && uniq@[a] == before[a]);
                        } else {
                            assert(uniq@[a] == before[a] && uniq@[b] == before[b]);
                        }
                    }
                    assert forall|f: Edge| uniq@.contains(f) <==> before.contains(f) || f == e by {
                        if uniq@.contains(f) && f != e {
                            let j = choose|j: int| 0 <= j < uniq@.len() && uniq@[j] == f;
                            assert(before[j] == f);
                        }
                        if f == e {
                            assert(uniq@[before.len() as int] == e);
                        }
                        if before.contains(f) {
                            let j = choose|j: int| 0 <= j < before.len() && before[j] == f;
                            assert(uniq@[j] == f);
                        }
                    }
                }
            },
        }
        proof {
            let s0 = edges@.subrange(0, i as int);
            let s1 = edges@.subrange(0, i + 1);
            assert(s1.drop_last() =~= s0);
            assert forall|f: Edge| uniq@.contains(f) <==> #[trigger] count_of(s1, f) % 2 == 1 by {
                assert(count_of(s1, f) == count_of(s0, f) + if e == f { 1nat } else { 0nat });
            }
        }
        i = i + 1;
    }
    assert(edges@.subrange(0, edges.len() as int) =~= edges@);
    uniq
}

/// UTF-8 bytes of a site's cell name.
pub open spec fn site_name_bytes(s: Site) -> Seq<u8> {
    vstd::utf8::encode_utf8(s.name@)
}

/// Fill of the cells a site owns: the colour derived from the site's name and
/// coordinates, at a fifth of its intensity and opacity.
pub open spec fn site_fill_color(s: Site) -> Rgba {
    spec_scale(spec_region_color(site_name_bytes(s), s.key.0 as int, s.key.1 as int), 20)
}

/// Fill of the cells that belong to no region: black at 80% opacity.
pub open spec fn mask_color() -> Rgba {
    spec_scale(opaque(0, 0, 0), 80)
}

/// Cell `(x, y)` belongs to a named region.
pub open spec fn cell_has_region(cells: CellMap<CellRecord>, x: int, y: int) -> bool {
    cells.lookup(x, y) matches Some(c) && has_region(c)
}

/// The `k`-th cell of the scan of the rectangle: columns west to east, each
/// column south to north.
pub open spec fn scan_cell(dims: Dimensions, k: int) -> CellKey {
    ((dims.min_x + k / dims.spec_height()) as i32, (dims.min_y + k % dims.spec_height()) as i32)
}

/// The site that owns the `k`-th scanned cell, if the cell belongs to a region.
pub open spec fn owner(dims: Dimensions, sites: Seq<Site>, cells: CellMap<CellRecord>, k: int) -> Option<int> {
    let c = scan_cell(dims, k);
    if cell_has_region(cells, c.0 as int, c.1 as int) {
        Some(best_index(site_keys(sites), c, sites.len()))
    } else {
        None
    }
}

/// The fill of the `k`-th scanned cell.
pub open spec fn fill_shape(dims: Dimensions, sites: Seq<Site>, cells: CellMap<CellRecord>, k: int) -> Shape {
    let c = scan_cell(dims, k);
    match owner(dims, sites, cells, k) {
        Some(i) => Shape::CellFill { cell: c, color: site_fill_color(sites[i]) },
        None => Shape::CellFill { cell: c, color: mask_color() },
    }
}

/// The sides of the cells that site `i` owns among the first `n` scanned
/// cells, in scan order.
pub open spec fn site_edges(dims: Dimensions, sites: Seq<Site>, cells: CellMap<CellRecord>, i: int, n: nat) -> Seq<Edge>
    decreases n,
{
    if n == 0 {
        seq![]
    } else {
        let rest = site_edges(dims, sites, cells, i, (n - 1) as nat);
        if owner(dims, sites, cells, n - 1) == Some(i) {
            let c = scan_cell(dims, n - 1);
            rest + cell_edges(c.0 as int, c.1 as int)
        } else {
            rest
        }
    }
}

/// The outline segments of each territory in turn, as shapes.
pub open spec fn outline_shapes(b: Seq<Seq<Edge>>) -> Seq<Shape>
    decreases b.len(),
{
    if b.len() == 0 {
        seq![]
    } else {
        outline_shapes(b.drop_last()) + b.last().map_values(|e: Edge| Shape::Outline { edge: e })
    }
}

/// `p` is the king-move partition of the rectangle among `sites`.
pub open spec fn is_kingsstep_partition(dims: Dimensions, sites: Seq<Site>, cells: CellMap<CellRecord>, p: Seq<Shape>) -> bool {
    &&& sites.len() == 0 ==> p.len() == 0
    &&& sites.len() > 0 ==> {
        let wh = dims.spec_width() * dims.spec_height();
        &&& p.len() >= wh
        &&& forall|k: int| 0 <= k < wh ==> #[trigger] p[k] == fill_shape(dims, sites, cells, k)
        &&& exists|b: Seq<Seq<Edge>>|
            {
                &&& b.len() == sites.len()
                &&& forall|i: int| 0 <= i < b.len() ==> is_outline(#[trigger] b[i], site_edges(dims, sites, cells, i, wh as nat))
                &&& p.subrange(wh, p.len() as int) == outline_shapes(b)
            }
    }
}

/// Partitions the rectangle among the sites by king-move distance.
///
/// One fill per scanned cell comes first: a cell of a region takes the colour
/// of its nearest site, any other cell the mask colour. Then, site by site,
/// the outline of its territory: the sides of its cells with those shared by
/// two of its cells cancelled. With no site there are no shapes.
pub fn create_kingsstep_polygons(dims: &Dimensions, interventions: &Vec<Site>, cell_records: &CellMap<CellRecord>) -> (r: Vec<Shape>)
    requires
        dims.wf(),
        cell_records.wf(),
    ensures
        is_kingsstep_partition(*dims, interventions@, *cell_records, r@),
{
    let n = interventions.len();
    let mut shapes: Vec<Shape> = Vec::new();
    if n < 1 {
        return shapes;
    }
    let mut colors: Vec<Rgba> = Vec::with_capacity(n);
    let mut i: usize = 0;
    while i < n
        invariant
            n == interventions.len(),
            i <= n,
            colors.len() == i,
            forall|j: int| 0 <= j < i ==> #[trigger] colors@[j] == site_fill_color(interventions@[j]),
        decreases n - i,
    {
        let site = &interventions[i];
        let c = region_color(site.name.as_str(), site.key.0, site.key.1);
        colors.push(gamma_multiply(c, 20));
        i = i + 1;
    }
    let mask = gamma_multiply(from_rgb(0, 0, 0), 80);
    proof {
        dims.lemma_sizes(VERTEX_CNT as int);
    }
    let h = dims.height();
    let mut owners: Vec<Option<usize>> = Vec::new();
    let mut x: i64 = dims.min_x as i64;
    let mut xi: usize = 0;
    while x <= dims.max_x as i64
        invariant
            dims.wf(),
            cell_records.wf(),
            n == interventions.len(),
            n >= 1,
            colors.len() == n,
            forall|j: int| 0 <= j < n ==> #[trigger] colors@[j] == site_fill_color(interventions@[j]),
            mask == mask_color(),
            h == dims.spec_height(),
            dims.min_x <= x <= dims.max_x + 1,
            xi == x - dims.min_x,
            dims.spec_width() * 65 <= usize::MAX,
            owners.len() == xi * h,
            shapes.len() == owners.len(),
            forall|k: int|
                0 <= k < owners.len() ==> match #[trigger] owners@[k] {
                    Some(m) => owner(*dims, interventions@, *cell_records, k) == Some(m as int),
                    None => owner(*dims, interventions@, *cell_records, k) is None,
                },
            forall|k: int| 0 <= k < shapes.len() ==> #[trigger] shapes@[k] == fill_shape(*dims, interventions@, *cell_records, k),
        decreases dims.max_x + 1 - x,
    {
        let mut y: i64 = dims.min_y as i64;
        let mut yi: usize = 0;
        while y <= dims.max_y as i64
            invariant
                dims.wf(),
                cell_records.wf(),
                n == interventions.len(),
                n >= 1,
                colors.len() == n,
                forall|j: int| 0 <= j < n ==> #[trigger] colors@[j] == site_fill_color(interventions@[j]),
                mask == mask_color(),
                h == dims.spec_height(),
                dims.min_x <= x <= dims.max_x,
                dims.min_y <= y <= dims.max_y + 1,
                xi == x - dims.min_x,
                yi == y - dims.min_y,
                owners.len() == xi * h + yi,
                shapes.len() == owners.len(),
                forall|k: int|
                    0 <= k < owners.len() ==> match #[trigger] owners@[k] {
                        Some(m) => owner(*dims, interventions@, *cell_records, k) == Some(m as int),
                        None => owner(*dims, interventions@, *cell_records, k) is None,
                    },
                forall|k: int| 0 <= k < shapes.len() ==> #[trigger] shapes@[k] == fill_shape(*dims, interventions@, *cell_records, k),
            decreases dims.max_y + 1 - y,
        {
            let cell: CellKey = (x as i32, y as i32);
            proof {
                lemma_row_major((xi * h + yi) as int, h as int, xi as int, yi as int);
                assert(scan_cell(*dims, (xi * h + yi) as int) == cell);
            }
            let has = match cell_records.get(cell.0, cell.1) {
                Some(c) => c.has_region(),
                None => false,
            };
            if has {
                let m = nearest_site(interventions, cell);
                owners.push(Some(m));
                shapes.push(Shape::CellFill { cell, color: colors[m] });
            } else {
                owners.push(None);
                shapes.push(Shape::CellFill { cell, color: mask });
            }
            y = y + 1;
            yi = yi + 1;
        }
        assert((xi + 1) * h == xi * h + h) by (nonlinear_arith);
        x = x + 1;
        xi = xi + 1;
    }
    let wh = owners.len();
    assert(wh == dims.spec_width() * dims.spec_height()) by (nonlinear_arith)
        requires
            wh == xi * h,
            xi == dims.spec_width(),
            h == dims.spec_height(),
    ;
    let ghost fills = shapes@;
    let ghost mut outlines: Seq<Seq<Edge>> = seq![];
    let mut i: usize = 0;
    while i < n
        invariant
            dims.wf(),
            n == interventions.len(),
            h == dims.spec_height(),
            h >= 1,
            i <= n,
            wh == owners.len(),
            wh == dims.spec_width() * dims.spec_height(),
            fills.len() == wh,
            forall|k: int|
                0 <= k < owners.len() ==> match #[trigger] owners@[k] {
                    Some(m) => owner(*dims, interventions@, *cell_records, k) == Some(m as int),
                    None => owner(*dims, interventions@, *cell_records, k) is None,
                },
            outlines.len() == i,
            forall|j: int|
                0 <= j < i ==> is_outline(#[trigger] outlines[j], site_edges(*dims, interventions@, *cell_records, j, wh as nat)),
            shapes@ == fills + outline_shapes(outlines),
        decreases n - i,
    {
        let mut list: Vec<Edge> = Vec::new();
        let mut k: usize = 0;
        while k < wh
            invariant
                dims.wf(),
                h == dims.spec_height(),
                h >= 1,
                i < n,
                k <= wh,
                wh == owners.len(),
                wh == dims.spec_width() * dims.spec_height(),
                forall|k: int|
                    0 <= k < owners.len() ==> match #[trigger] owners@[k] {
                        Some(m) => owner(*dims, interventions@, *cell_records, k) == Some(m as int),
                        None => owner(*dims, interventions@, *cell_records, k) is None,
                    },
                list@ == site_edges(*dims, interventions@, *cell_records, i as int, k as nat),
            decreases wh - k,
        {
            let owned = match owners[k] {
                Some(m) => m == i,
                None => false,
            };
            if owned {
                proof {
                    assert(0 <= k / h < dims.spec_width()) by (nonlinear_arith)
                        requires
                            h >= 1,
                            0 <= k < dims.spec_width() * h,
                    ;
                }
                let cell: CellKey = ((dims.min_x as i64 + (k / h) as i64) as i32, (dims.min_y as i64 + (k % h) as i64) as i32);
                let mut es = rect_to_edges(cell);
                list.append(&mut es);
            }
            k = k + 1;
        }
        let u = xor_edges(&list);
        let ghost before = shapes@;
        let mut j: usize = 0;
        while j < u.len()
            invariant
                j <= u.len(),
                shapes@ == before + u@.subrange(0, j as int).map_values(|e: Edge| Shape::Outline { edge: e }),
            decreases u.len() - j,
        {
            shapes.push(Shape::Outline { edge: u[j] });
            j = j + 1;
            assert(shapes@ =~= before + u@.subrange(0, j as int).map_values(|e: Edge| Shape::Outline { edge: e }));
        }
        proof {
            assert(u@.subrange(0, u.len() as int) =~= u@);
            let next = outlines.push(u@);
            assert(next.drop_last() =~= outlines);
            assert(shapes@ =~= fills + outline_shapes(next));
            outlines = next;
        }
        i = i + 1;
    }
    proof {
        assert(shapes@.subrange(wh as int, shapes.len() as int) =~= outline_shapes(outlines));
        assert(forall|k: int| 0 <= k < wh ==> #[trigger] shapes@[k] == fills[k]);
    }
    shapes
}

/// Fill of a site's Voronoi cell: the colour derived from its region name
/// and coordinates (black without a region), at a fifth of its intensity and
/// opacity.
pub open spec fn voronoi_color(s: Site) -> Rgba {
    let base = match s.region {
        Some(name) => spec_region_color(vstd::utf8::encode_utf8(name@), s.key.0 as int, s.key.1 as int),
        None => opaque(0, 0, 0),
    };
    spec_scale(base, 20)
}

/// The Voronoi cell of a site.
pub open spec fn voronoi_shape(s: Site) -> Shape {
    Shape::VoronoiCell { site: s.key, color: voronoi_color(s) }
}

/// One Voronoi cell per site, in site order, each filled with the colour of
/// its site's region; none with fewer than two sites, which leave nothing to
/// partition. The cells' polygons are computed by the renderer from the site
/// centres and the viewport.
pub fn create_voronoi_polygons(interventions: &Vec<Site>) -> (r: Vec<Shape>)
    ensures
        interventions.len() < 2 ==> r.len() == 0,
        interventions.len() >= 2 ==> r.len() == interventions.len(),
        interventions.len() >= 2 ==> forall|i: int|
            0 <= i < r.len() ==> #[trigger] r@[i] == voronoi_shape(interventions@[i]),
{
    let mut shapes: Vec<Shape> = Vec::new();
    if interventions.len() < 2 {
        return shapes;
    }
    let mut i: usize = 0;
    while i < interventions.len()
        invariant
            i <= interventions.len(),
            shapes.len() == i,
            forall|j: int|
                0 <= j < i ==> #[trigger] shapes@[j] == voronoi_shape(interventions@[j]),
        decreases interventions.len() - i,
    {
        let site = &interventions[i];
        let base = match &site.region {
            Some(name) => region_color(name.as_str(), site.key.0, site.key.1),
            None => from_rgb(0, 0, 0),
        };
        shapes.push(Shape::VoronoiCell { site: site.key, color: gamma_multiply(base, 20) });
        i = i + 1;
    }
    shapes
}

/// Whether two strings hold the same characters.
pub fn str_equals(a: &str, b: &str) -> (r: bool)
    ensures
        r == (a@ == b@),
{
    let x = a.as_bytes();
    let y = b.as_bytes();
    proof {
        vstd::utf8::encode_utf8_decode_utf8(a@);
        vstd::utf8::encode_utf8_decode_utf8(b@);
    }
    if x.len() != y.len() {
        return false;
    }
    let mut i: usize = 0;
    while i < x.len()
        invariant
            x@ == a.spec_bytes(),
            y@ == b.spec_bytes(),
            x.len() == y.len(),
            i <= x.len(),
            forall|j: int| 0 <= j < i ==> x@[j] == y@[j],
        decreases x.len() - i,
    {
        if x[i] != y[i] {
            return false;
        }
        i = i + 1;
    }
    assert(x@ =~= y@);
    true
}

/// Glyph and fill of the site markers for an icon style.
pub open spec fn spec_marker(icon: Seq<char>) -> (MarkerKind, Rgba) {
    if icon == "almsivi"@ {
        (MarkerKind::Triangle, opaque(180, 25, 25))
    } else if icon == "divine"@ {
        (MarkerKind::Nonagon, opaque(200, 200, 200))
    } else if icon == "kyne"@ {
        (MarkerKind::Bird, opaque(0, 100, 0))
    } else {
        (MarkerKind::Circle, opaque(0, 0, 0))
    }
}

/// Glyph and fill of the site markers for an icon style: a red triangle, a
/// grey nonagon, a green bird, or by default a black circle.
pub fn marker_for_icon(icon_type: &str) -> (r: (MarkerKind, Rgba))
    ensures
        r == spec_marker(icon_type@),
{
    if str_equals(icon_type, "almsivi") {
        (MarkerKind::Triangle, from_rgb(180, 25, 25))
    } else if str_equals(icon_type, "divine") {
        (MarkerKind::Nonagon, from_rgb(200, 200, 200))
    } else if str_equals(icon_type, "kyne") {
        (MarkerKind::Bird, from_rgb(0, 100, 0))
    } else {
        (MarkerKind::Circle, from_rgb(0, 0, 0))
    }
}

/// The marker of a site in icon style `icon`.
pub open spec fn marker_shape(s: Site, icon: Seq<char>) -> Shape {
    Shape::Marker { site: s.key, kind: spec_marker(icon).0, fill: spec_marker(icon).1 }
}

/// The engine name that selects the continuous Voronoi partition.
pub open spec fn is_voronoi_engine(engine: Seq<char>) -> bool {
    engine == "Pythagorean"@
}

/// The territory overlay: the partition chosen by `intervention_engine` (the
/// Voronoi cells for `"Pythagorean"`, provided there are at least two sites;
/// the king-move partition otherwise), then one marker per site in the style
/// of `icon_type`.
pub fn get_intervention_shapes(
    dims: &Dimensions,
    interventions: &Vec<Site>,
    cell_records: &CellMap<CellRecord>,
    icon_type: &str,
    intervention_engine: &str,
) -> (r: Vec<Shape>)
    requires
        dims.wf(),
        cell_records.wf(),
    ensures
        exists|p: Seq<Shape>|
            {
                &&& is_voronoi_engine(intervention_engine@) ==> {
                    &&& interventions.len() < 2 ==> p.len() == 0
                    &&& interventions.len() >= 2 ==> p.len() == interventions.len() && forall|i: int|
                        0 <= i < p.len() ==> #[trigger] p[i] == voronoi_shape(interventions@[i])
                }
                &&& !is_voronoi_engine(intervention_engine@) ==> is_kingsstep_partition(
                    *dims,
                    interventions@,
                    *cell_records,
                    p,
                )
                &&& r.len() == p.len() + interventions.len()
                &&& r@.subrange(0, p.len() as int) == p
                &&& forall|i: int|
                    0 <= i < interventions.len() ==> #[trigger] r@[p.len() + i] == marker_shape(interventions@[i], icon_type@)
            },
{
    let mut shapes = if str_equals(intervention_engine, "Pythagorean") {
        create_voronoi_polygons(interventions)
    } else {
        create_kingsstep_polygons(dims, interventions, cell_records)
    };
    let ghost p = shapes@;
    let (kind, fill) = marker_for_icon(icon_type);
    let mut i: usize = 0;
    while i < interventions.len()
        invariant
            i <= interventions.len(),
            shapes.len() == p.len() + i,
            shapes@.subrange(0, p.len() as int) == p,
            forall|j: int|
                0 <= j < i ==> #[trigger] shapes@[p.len() + j] == marker_shape(interventions@[j], icon_type@),
            (kind, fill) == spec_marker(icon_type@),
        decreases interventions.len() - i,
    {
        shapes.push(Shape::Marker { site: interventions[i].key, kind, fill });
        proof {
            assert(shapes@.subrange(0, p.len() as int) =~= p);
        }
        i = i + 1;
    }
    shapes
}

} // verus!
