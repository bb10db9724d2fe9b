use tes3map::cell_map::CellMap;
use tes3map::color::{from_rgb, gamma_multiply, Rgba};
use tes3map::geometry::Dimensions;
use tes3map::region_color::region_color;
use tes3map::terrain::CellRecord;
use tes3map::territory::{
    break_ties_todd_howard_spiral, create_kingsstep_polygons, create_voronoi_polygons, get_intervention_shapes,
    marker_for_icon, nearest_site, rect_to_edges, spiral_rank, xor_edges, Edge, MarkerKind, Shape, Site,
};

fn site(x: i32, y: i32, name: &str) -> Site {
    Site { key: (x, y), name: name.to_string(), region: Some(format!("{name} Region")) }
}

fn region_cell() -> CellRecord {
    CellRecord { name: "c".to_string(), region: Some("R".to_string()) }
}

fn edge(x0: i64, y0: i64, x1: i64, y1: i64) -> Edge {
    Edge { x0, y0, x1, y1 }
}

fn outlines(shapes: &[Shape]) -> Vec<Edge> {
    shapes
        .iter()
        .filter_map(|s| match s {
            Shape::Outline { edge } => Some(*edge),
            _ => None,
        })
        .collect()
}

#[test]
fn spiral_walks_the_first_ring_clockwise() {
    let c = (0, 0);
    assert_eq!(spiral_rank(c, (0, 0)), (0, 0));
    assert_eq!(spiral_rank(c, (-1, 1)), (1, 0));
    assert_eq!(spiral_rank(c, (0, 1)), (1, 1));
    assert_eq!(spiral_rank(c, (1, 1)), (1, 2));
    assert_eq!(spiral_rank(c, (1, 0)), (1, 3));
    assert_eq!(spiral_rank(c, (1, -1)), (1, 4));
    assert_eq!(spiral_rank(c, (0, -1)), (1, 5));
    assert_eq!(spiral_rank(c, (-1, -1)), (1, 6));
    assert_eq!(spiral_rank(c, (-1, 0)), (1, 7));
    assert_eq!(spiral_rank((5, 0), (10, 0)), (5, 15));
    assert_eq!(spiral_rank((5, 0), (0, 0)), (5, 35));
}

#[test]
fn equidistant_sites_tie_break_deterministically() {
    let sites = vec![site(0, 0, "West"), site(10, 0, "East")];
    assert_eq!(nearest_site(&sites, (5, 0)), 1);
    assert_eq!(nearest_site(&sites, (5, 0)), 1);
    let reversed = vec![site(10, 0, "East"), site(0, 0, "West")];
    assert_eq!(nearest_site(&reversed, (5, 0)), 0);
    assert!(break_ties_todd_howard_spiral((5, 0), (0, 0), (10, 0)));
    assert!(!break_ties_todd_howard_spiral((5, 0), (10, 0), (0, 0)));
}

#[test]
fn nearest_site_prefers_smaller_distance() {
    let sites = vec![site(0, 0, "A"), site(3, 3, "B"), site(-2, 1, "C")];
    assert_eq!(nearest_site(&sites, (2, 2)), 1);
    assert_eq!(nearest_site(&sites, (-1, 0)), 2);
    assert_eq!(nearest_site(&sites, (0, 0)), 0);
}

#[test]
fn assignment_ignores_site_order() {
    let a = vec![site(0, 0, "A"), site(4, 0, "B"), site(0, 4, "C"), site(4, 4, "D")];
    let b = vec![site(4, 4, "D"), site(0, 4, "C"), site(4, 0, "B"), site(0, 0, "A")];
    for x in -3..8 {
        for y in -3..8 {
            let ka = a[nearest_site(&a, (x, y))].key;
            let kb = b[nearest_site(&b, (x, y))].key;
            assert_eq!(ka, kb);
        }
    }
}

#[test]
fn xor_cancels_pairs() {
    let e1 = edge(0, 0, 1, 0);
    let e2 = edge(1, 0, 1, 1);
    let e3 = edge(0, 1, 1, 1);
    let r = xor_edges(&vec![e1, e2, e1, e3, e3, e3]);
    assert_eq!(r.len(), 2);
    assert!(r.contains(&e2) && r.contains(&e3));
    assert!(xor_edges(&vec![]).is_empty());
}

#[test]
fn cell_sides_are_unit_segments() {
    assert_eq!(
        rect_to_edges((2, -1)),
        vec![edge(2, -1, 3, -1), edge(3, -1, 3, 0), edge(2, 0, 3, 0), edge(2, -1, 2, 0)]
    );
}

#[test]
fn single_cell_territory_has_its_four_sides() {
    let dims = Dimensions { min_x: 0, max_x: 0, min_y: 0, max_y: 0, texture_size: 1 };
    let mut cells = CellMap::new(&dims);
    assert!(cells.insert(0, 0, region_cell()));
    let sites = vec![site(0, 0, "Vivec")];
    let shapes = create_kingsstep_polygons(&dims, &sites, &cells);
    assert_eq!(shapes.len(), 5);
    assert_eq!(shapes[0], Shape::CellFill { cell: (0, 0), color: Rgba { r: 31, g: 0, b: 44, a: 51 } });
    let mut got = outlines(&shapes);
    let mut want = rect_to_edges((0, 0));
    got.sort_by_key(|e| (e.x0, e.y0, e.x1, e.y1));
    want.sort_by_key(|e| (e.x0, e.y0, e.x1, e.y1));
    assert_eq!(got, want);
}

#[test]
fn block_territory_keeps_only_its_border() {
    let dims = Dimensions { min_x: 0, max_x: 2, min_y: 0, max_y: 1, texture_size: 1 };
    let mut cells = CellMap::new(&dims);
    for x in 0..3 {
        for y in 0..2 {
            assert!(cells.insert(x, y, region_cell()));
        }
    }
    let sites = vec![site(1, 1, "Solo")];
    let shapes = create_kingsstep_polygons(&dims, &sites, &cells);
    let got = outlines(&shapes);
    assert_eq!(got.len(), 10);
    for e in &got {
        let horizontal = e.y0 == e.y1;
        let on_border = if horizontal { e.y0 == 0 || e.y0 == 2 } else { e.x0 == 0 || e.x0 == 3 };
        assert!(on_border, "interior segment {e:?}");
    }
}

#[test]
fn territories_split_between_sites() {
    let dims = Dimensions { min_x: 0, max_x: 1, min_y: 0, max_y: 0, texture_size: 1 };
    let mut cells = CellMap::new(&dims);
    assert!(cells.insert(0, 0, region_cell()));
    assert!(cells.insert(1, 0, region_cell()));
    let sites = vec![site(0, 0, "Vivec"), site(1, 0, "Vivec")];
    let shapes = create_kingsstep_polygons(&dims, &sites, &cells);
    // Two fills, then four sides for each territory.
    assert_eq!(shapes.len(), 2 + 4 + 4);
    let c1 = gamma_multiply(region_color("Vivec", 1, 0), 20);
    assert_eq!(shapes[1], Shape::CellFill { cell: (1, 0), color: c1 });
    assert_eq!(outlines(&shapes).iter().filter(|e| **e == edge(1, 0, 1, 1)).count(), 2);
}

#[test]
fn cells_without_region_are_masked() {
    let dims = Dimensions { min_x: 0, max_x: 1, min_y: 0, max_y: 0, texture_size: 1 };
    let mut cells = CellMap::new(&dims);
    assert!(cells.insert(0, 0, CellRecord { name: "w".to_string(), region: Some(String::new()) }));
    let sites = vec![site(1, 0, "S")];
    let shapes = create_kingsstep_polygons(&dims, &sites, &cells);
    let mask = Rgba { r: 0, g: 0, b: 0, a: 204 };
    assert_eq!(shapes[0], Shape::CellFill { cell: (0, 0), color: mask });
    assert_eq!(shapes[1], Shape::CellFill { cell: (1, 0), color: mask });
    assert_eq!(shapes.len(), 2);
}

#[test]
fn no_sites_no_shapes() {
    let dims = Dimensions { min_x: 0, max_x: 1, min_y: 0, max_y: 0, texture_size: 1 };
    let cells = CellMap::new(&dims);
    assert!(create_kingsstep_polygons(&dims, &vec![], &cells).is_empty());
}

#[test]
fn voronoi_needs_two_sites() {
    assert!(create_voronoi_polygons(&vec![site(0, 0, "A")]).is_empty());
    let mut lone = site(3, 4, "B");
    lone.region = None;
    let shapes = create_voronoi_polygons(&vec![site(0, 0, "A"), lone]);
    assert_eq!(shapes.len(), 2);
    let c0 = gamma_multiply(region_color("A Region", 0, 0), 20);
    assert_eq!(shapes[0], Shape::VoronoiCell { site: (0, 0), color: c0 });
    assert_eq!(shapes[1], Shape::VoronoiCell { site: (3, 4), color: Rgba { r: 0, g: 0, b: 0, a: 51 } });
}

#[test]
fn markers_follow_icon_style() {
    assert_eq!(marker_for_icon("almsivi"), (MarkerKind::Triangle, from_rgb(180, 25, 25)));
    assert_eq!(marker_for_icon("divine"), (MarkerKind::Nonagon, from_rgb(200, 200, 200)));
    assert_eq!(marker_for_icon("kyne"), (MarkerKind::Bird, from_rgb(0, 100, 0)));
    assert_eq!(marker_for_icon("other"), (MarkerKind::Circle, from_rgb(0, 0, 0)));
}

#[test]
fn intervention_shapes_end_with_markers() {
    let dims = Dimensions { min_x: 0, max_x: 1, min_y: 0, max_y: 0, texture_size: 1 };
    let cells = CellMap::new(&dims);
    let sites = vec![site(0, 0, "A"), site(1, 0, "B")];
    let v = get_intervention_shapes(&dims, &sites, &cells, "kyne", "Pythagorean");
    assert_eq!(v.len(), 4);
    assert!(matches!(v[0], Shape::VoronoiCell { .. }));
    assert_eq!(v[3], Shape::Marker { site: (1, 0), kind: MarkerKind::Bird, fill: from_rgb(0, 100, 0) });
    let k = get_intervention_shapes(&dims, &sites, &cells, "", "Kings step");
    assert_eq!(k.len(), 2 + 2);
    assert!(matches!(k[0], Shape::CellFill { .. }));
    assert_eq!(k[2], Shape::Marker { site: (0, 0), kind: MarkerKind::Circle, fill: from_rgb(0, 0, 0) });
    let lone = vec![site(0, 0, "A")];
    let one = get_intervention_shapes(&dims, &lone, &cells, "divine", "Pythagorean");
    assert_eq!(one.len(), 1);
}
