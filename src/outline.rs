use vstd::prelude::*;
use crate::cell_map::CellMap;
use crate::geometry::{CellKey, Dimensions};
use crate::terrain::CellRecord;
use crate::territory::{cell_edges, count_of, is_outline, owner, scan_cell, site_edges, Edge, Site};

verus! {

/// The sides of the cells of `cs`, cell after cell.
pub open spec fn edges_of_cells(cs: Seq<CellKey>) -> Seq<Edge>
    decreases cs.len(),
{
    if cs.len() == 0 {
        seq![]
    } else {
        edges_of_cells(cs.drop_last()) + cell_edges(cs.last().0 as int, cs.last().1 as int)
    }
}

/// `cs` holds cell `(x, y)`.
pub open spec fn has_cell(cs: Seq<CellKey>, x: int, y: int) -> bool {
    exists|i: int| 0 <= i < cs.len() && #[trigger] cs[i].0 == x && cs[i].1 == y
}

pub open spec fn is_horizontal(e: Edge) -> bool {
    e.y1 == e.y0 && e.x1 == e.x0 + 1
}

pub open spec fn is_vertical(e: Edge) -> bool {
    e.x1 == e.x0 && e.y1 == e.y0 + 1
}

/// Exactly one of the two cells on either side of `e` is in `cs`.
pub open spec fn separates(cs: Seq<CellKey>, e: Edge) -> bool {
    ||| is_horizontal(e) && has_cell(cs, e.x0 as int, e.y0 as int) != has_cell(cs, e.x0 as int, e.y0 - 1)
    ||| is_vertical(e) && has_cell(cs, e.x0 as int, e.y0 as int) != has_cell(cs, e.x0 - 1, e.y0 as int)
}

/// Cell `c` has `e` among its sides, once.
spec fn side_count(c: CellKey, e: Edge) -> nat {
    if (is_horizontal(e) && e.x0 == c.0 && (e.y0 == c.1 || e.y0 == c.1 + 1)) || (is_vertical(e) && e.y0
        == c.1 && (e.x0 == c.0 || e.x0 == c.0 + 1)) {
        1
    } else {
        0
    }
}

/// Cells of `cs` that have `e` among their sides.
spec fn side_total(cs: Seq<CellKey>, e: Edge) -> nat
    decreases cs.len(),
{
    if cs.len() == 0 {
        0
    } else {
        side_total(cs.drop_last(), e) + side_count(cs.last(), e)
    }
}

proof fn lemma_count_concat(a: Seq<Edge>, b: Seq<Edge>, e: Edge)
    ensures
        count_of(a + b, e) == count_of(a, e) + count_of(b, e),
    decreases b.len(),
{
    if b.len() > 0 {
        assert((a + b).drop_last() =~= a + b.drop_last());
        lemma_count_concat(a, b.drop_last(), e);
    } else {
        assert(a + b =~= a);
    }
}

proof fn lemma_count_cell_edges(c: CellKey, e: Edge)
    ensures
        count_of(cell_edges(c.0 as int, c.1 as int), e) == side_count(c, e),
{
    let s = cell_edges(c.0 as int, c.1 as int);
    assert(s.drop_last().drop_last().drop_last().drop_last() =~= Seq::<Edge>::empty());
    reveal_with_fuel(count_of, 5);
}

proof fn lemma_count_is_side_total(cs: Seq<CellKey>, e: Edge)
    ensures
        count_of(edges_of_cells(cs), e) == side_total(cs, e),
    decreases cs.len(),
{
    if cs.len() > 0 {
        lemma_count_is_side_total(cs.drop_last(), e);
        lemma_count_concat(edges_of_cells(cs.drop_last()), cell_edges(cs.last().0 as int, cs.last().1 as int), e);
        lemma_count_cell_edges(cs.last(), e);
    }
}

/// With distinct cells, the count of cells bordering `e` is the number of
/// its two neighbours that are present.
proof fn lemma_side_total_neighbours(cs: Seq<CellKey>, e: Edge)
    requires
        cs.no_duplicates(),
    ensures
        is_horizontal(e) ==> side_total(cs, e) == (if has_cell(cs, e.x0 as int, e.y0 as int) { 1int } else { 0int })
            + (if has_cell(cs, e.x0 as int, e.y0 - 1) { 1int } else { 0int }),
        is_vertical(e) ==> side_total(cs, e) == (if has_cell(cs, e.x0 as int, e.y0 as int) { 1int } else { 0int })
            + (if has_cell(cs, e.x0 - 1, e.y0 as int) { 1int } else { 0int }),
        !is_horizontal(e) && !is_vertical(e) ==> side_total(cs, e) == 0,
    decreases cs.len(),
{
    if cs.len() > 0 {
        let rest = cs.drop_last();
        let c = cs.last();
        assert(rest.no_duplicates());
        lemma_side_total_neighbours(rest, e);
        assert forall|x: int, y: int| has_cell(cs, x, y) <==> (has_cell(rest, x, y) || (c.0 == x && c.1 == y)) by {
            if has_cell(cs, x, y) {
                let i = choose|i: int| 0 <= i < cs.len() && #[trigger] cs[i].0 == x && cs[i].1 == y;
                if i < cs.len() - 1 {
                    assert(rest[i] == cs[i]);
                }
            }
            if has_cell(rest, x, y) {
                let i = choose|i: int| 0 <= i < rest.len() && #[trigger] rest[i].0 == x && rest[i].1 == y;
                assert(cs[i] == rest[i]);
            }
            if c.0 == x && c.1 == y {
                assert(cs[cs.len() - 1] == c);
            }
        }
        assert(!has_cell(rest, c.0 as int, c.1 as int)) by {
            if has_cell(rest, c.0 as int, c.1 as int) {
                let i = choose|i: int| 0 <= i < rest.len() && #[trigger] rest[i].0 == c.0 && rest[i].1 == c.1;
                assert(cs[i] == cs[cs.len() - 1]);
            }
        }
    }
}

/// The outline of a set of cells is where it meets its outside: a segment is
/// on it exactly when one of the two cells it separates belongs to the set.
/// Segments between two cells of the set cancel.
pub proof fn lemma_outline_separates(cs: Seq<CellKey>, u: Seq<Edge>, e: Edge)
    requires
        cs.no_duplicates(),
        is_outline(u, edges_of_cells(cs)),
    ensures
        u.contains(e) <==> separates(cs, e),
{
    lemma_count_is_side_total(cs, e);
    lemma_side_total_neighbours(cs, e);
}

/// `e` is a unit segment on the border of the block of cells
/// `[x0, x1] x [y0, y1]`.
pub open spec fn on_block_border(e: Edge, x0: int, x1: int, y0: int, y1: int) -> bool {
    ||| is_horizontal(e) && x0 <= e.x0 <= x1 && (e.y0 == y0 || e.y0 == y1 + 1)
    ||| is_vertical(e) && y0 <= e.y0 <= y1 && (e.x0 == x0 || e.x0 == x1 + 1)
}

/// The outline of a rectangular block of cells is its border and nothing
/// else: every segment inside the block cancels.
pub proof fn lemma_block_outline(cs: Seq<CellKey>, u: Seq<Edge>, x0: int, x1: int, y0: int, y1: int, e: Edge)
    requires
        x0 <= x1,
        y0 <= y1,
        cs.no_duplicates(),
        forall|i: int| 0 <= i < cs.len() ==> x0 <= #[trigger] cs[i].0 <= x1 && y0 <= cs[i].1 <= y1,
        forall|x: int, y: int| x0 <= x <= x1 && y0 <= y <= y1 ==> #[trigger] has_cell(cs, x, y),
        is_outline(u, edges_of_cells(cs)),
    ensures
        u.contains(e) <==> on_block_border(e, x0, x1, y0, y1),
{
    lemma_outline_separates(cs, u, e);
    assert forall|x: int, y: int| #[trigger] has_cell(cs, x, y) <==> (x0 <= x <= x1 && y0 <= y <= y1) by {
        if has_cell(cs, x, y) {
            let i = choose|i: int| 0 <= i < cs.len() && #[trigger] cs[i].0 == x && cs[i].1 == y;
        }
    }
    let a = has_cell(cs, e.x0 as int, e.y0 as int);
    let b = has_cell(cs, e.x0 as int, e.y0 - 1);
    let c = has_cell(cs, e.x0 - 1, e.y0 as int);
    assert(a <==> (x0 <= e.x0 <= x1 && y0 <= e.y0 <= y1));
    assert(b <==> (x0 <= e.x0 <= x1 && y0 <= e.y0 - 1 <= y1));
    assert(c <==> (x0 <= e.x0 - 1 <= x1 && y0 <= e.y0 <= y1));
}

/// The cells that site `i` owns among the first `n` scanned cells, in scan
/// order.
pub open spec fn owned_cells(dims: Dimensions, sites: Seq<Site>, cells: CellMap<CellRecord>, i: int, n: nat) -> Seq<CellKey>
    decreases n,
{
    if n == 0 {
        seq![]
    } else {
        let rest = owned_cells(dims, sites, cells, i, (n - 1) as nat);
        if owner(dims, sites, cells, n - 1) == Some(i) {
            rest.push(scan_cell(dims, n - 1))
        } else {
            rest
        }
    }
}

proof fn lemma_owned_cells(dims: Dimensions, sites: Seq<Site>, cells: CellMap<CellRecord>, i: int, n: nat)
    requires
        dims.wf(),
        n <= dims.spec_width() * dims.spec_height(),
    ensures
        site_edges(dims, sites, cells, i, n) == edges_of_cells(owned_cells(dims, sites, cells, i, n)),
        owned_cells(dims, sites, cells, i, n).no_duplicates(),
        forall|j: int|
            0 <= j < owned_cells(dims, sites, cells, i, n).len() ==> exists|k: int|
                0 <= k < n && #[trigger] owned_cells(dims, sites, cells, i, n)[j] == scan_cell(dims, k),
    decreases n,
{
    if n > 0 {
        let rest = owned_cells(dims, sites, cells, i, (n - 1) as nat);
        lemma_owned_cells(dims, sites, cells, i, (n - 1) as nat);
        if owner(dims, sites, cells, n - 1) == Some(i) {
            let all = rest.push(scan_cell(dims, n - 1));
            assert(all.drop_last() =~= rest);
            assert forall|j: int| 0 <= j < rest.len() implies #[trigger] rest[j] != scan_cell(dims, n - 1) by {
                let k = choose|k: int| 0 <= k < n - 1 && #[trigger] rest[j] == scan_cell(dims, k);
                lemma_scan_cell_injective(dims, k, n - 1);
            }
            assert forall|j: int| 0 <= j < all.len() implies exists|k: int|
                0 <= k < n && #[trigger] all[j] == scan_cell(dims, k) by {
                if j < rest.len() {
                    assert(all[j] == rest[j]);
                } else {
                    assert(all[j] == scan_cell(dims, n - 1));
                }
            }
        }
    }
}

proof fn lemma_scan_cell_injective(dims: Dimensions, a: int, b: int)
    requires
        dims.wf(),
        0 <= a < b < dims.spec_width() * dims.spec_height(),
    ensures
        scan_cell(dims, a) != scan_cell(dims, b),
{
    let h = dims.spec_height();
    let w = dims.spec_width();
    assert(0 <= a / h < w && 0 <= b / h < w) by (nonlinear_arith)
        requires
            h >= 1,
            0 <= a < w * h,
            0 <= b < w * h,
    ;
    vstd::arithmetic::div_mod::lemma_fundamental_div_mod(a, h);
    vstd::arithmetic::div_mod::lemma_fundamental_div_mod(b, h);
    if scan_cell(dims, a) == scan_cell(dims, b) {
        assert(a / h == b / h && a % h == b % h);
    }
}

/// A territory's outline, as the king-move partition builds it, runs where the
/// territory meets the rest of the map: a segment is on it exactly when one of
/// the two cells it separates is owned by the site.
pub proof fn lemma_territory_outline(
    dims: Dimensions,
    sites: Seq<Site>,
    cells: CellMap<CellRecord>,
    i: int,
    u: Seq<Edge>,
    e: Edge,
)
    requires
        dims.wf(),
        is_outline(u, site_edges(dims, sites, cells, i, (dims.spec_width() * dims.spec_height()) as nat)),
    ensures
        u.contains(e) <==> separates(
            owned_cells(dims, sites, cells, i, (dims.spec_width() * dims.spec_height()) as nat),
            e,
        ),
{
    let n = (dims.spec_width() * dims.spec_height()) as nat;
    assert(dims.spec_width() * dims.spec_height() >= 0) by (nonlinear_arith)
        requires
            dims.spec_width() >= 1,
            dims.spec_height() >= 1,
    ;
    lemma_owned_cells(dims, sites, cells, i, n);
    lemma_outline_separates(owned_cells(dims, sites, cells, i, n), u, e);
}

} // verus!
