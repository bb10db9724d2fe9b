use tes3map::cell_map::CellMap;
use tes3map::color::{from_rgb, Rgba};
use tes3map::geometry::Dimensions;
use tes3map::heightmap::{generate_heightmap, get_color_for_height, Palette};
use tes3map::heights::{calculate_heights, decode_heights, height_from_screen_space, DimensionsZ};
use tes3map::terrain::Landscape;

fn land(offset: i32, deltas: Vec<i8>) -> Landscape {
    Landscape {
        uses_heights: true,
        uses_textures: false,
        height_offset: offset,
        height_deltas: deltas,
        texture_indices: vec![],
        world_map: vec![0; 81],
    }
}

fn sample_deltas() -> Vec<i8> {
    let mut d = vec![0i8; 65 * 65];
    d[0] = 2;
    d[1] = 3;
    d[65] = -1;
    d
}

#[test]
fn flat_cell_decodes_to_scaled_offset() {
    for k in [-40, 0, 7, 1000] {
        let heights = decode_heights(&land(k, vec![0; 65 * 65]));
        assert_eq!(heights.len(), 65 * 65);
        assert!(heights.iter().all(|h| *h == 8 * k as i64));
    }
}

#[test]
fn rows_seed_from_the_first_sample_above() {
    let h = decode_heights(&land(10, sample_deltas()));
    assert_eq!(h[0], 96);
    assert_eq!(h[1], 120);
    assert_eq!(h[64], 120);
    assert_eq!(h[65], 88);
    assert_eq!(h[65 * 65 - 1], 88);
}

#[test]
fn range_is_min_and_max_of_all_samples() {
    let dims = Dimensions { min_x: 0, max_x: 1, min_y: 0, max_y: 0, texture_size: 1 };
    let mut records = CellMap::new(&dims);
    assert!(records.insert(0, 0, land(10, sample_deltas())));
    let mut low = vec![0i8; 65 * 65];
    low[65 * 64 + 64] = -20;
    assert!(records.insert(1, 0, land(-3, low)));
    let (buf, dz) = calculate_heights(&records, &dims).unwrap();
    assert_eq!(dz, DimensionsZ { min_z: -184, max_z: 120 });
    assert_eq!(buf.len(), 130 * 65);
    // Row 0 of cell (0, 0) is at the bottom of its block.
    assert_eq!(buf[64 * 130], 96);
    assert_eq!(buf[64 * 130 + 1], 120);
    assert_eq!(buf[0], 88);
    // Cell (1, 0) starts at column 65; its last stored row is at the top.
    assert_eq!(buf[65 + 64], -184);
    assert_eq!(buf[65], -24);
}

#[test]
fn cells_without_heights_hold_the_sentinel() {
    let dims = Dimensions { min_x: 0, max_x: 1, min_y: 0, max_y: 0, texture_size: 1 };
    let mut records = CellMap::new(&dims);
    assert!(records.insert(1, 0, land(2, vec![0; 65 * 65])));
    let (buf, dz) = calculate_heights(&records, &dims).unwrap();
    assert_eq!(dz, DimensionsZ { min_z: 16, max_z: 16 });
    assert_eq!(buf[0], 15);
    assert_eq!(buf[64 * 130 + 64], 15);
    assert_eq!(buf[65], 16);
}

#[test]
fn no_height_data_gives_none() {
    let dims = Dimensions { min_x: 0, max_x: 2, min_y: 0, max_y: 2, texture_size: 1 };
    let mut records = CellMap::new(&dims);
    assert!(calculate_heights(&records, &dims).is_none());
    let mut flagless = land(5, vec![0; 65 * 65]);
    flagless.uses_heights = false;
    assert!(records.insert(1, 1, flagless));
    assert!(calculate_heights(&records, &dims).is_none());
    assert!(!records.insert(3, 0, land(5, vec![0; 65 * 65])));
    assert!(calculate_heights(&records, &dims).is_none());
}

#[test]
fn height_lookup_inside_and_outside_buffer() {
    let dims = Dimensions { min_x: 0, max_x: 0, min_y: 0, max_y: 0, texture_size: 1 };
    let heights: Vec<i64> = (0..65 * 65).collect();
    assert_eq!(height_from_screen_space(&heights, &dims, 3, 2), Some(133));
    assert_eq!(height_from_screen_space(&heights, &dims, 65, 0), None);
    assert_eq!(height_from_screen_space(&heights, &dims, 0, 65), None);
    assert_eq!(height_from_screen_space(&heights[..10].to_vec(), &dims, 0, 1), None);
}

fn palette() -> Palette {
    Palette {
        height_low: from_rgb(0, 0, 0),
        height_high: from_rgb(200, 100, 50),
        depth_shallow: from_rgb(0, 0, 255),
        depth_deep: from_rgb(0, 0, 55),
    }
}

#[test]
fn palette_ramps() {
    let dz = DimensionsZ { min_z: -100, max_z: 100 };
    assert_eq!(get_color_for_height(-101, dz, palette()), Rgba { r: 0, g: 0, b: 0, a: 0 });
    assert_eq!(get_color_for_height(0, dz, palette()), from_rgb(0, 0, 0));
    assert_eq!(get_color_for_height(50, dz, palette()), from_rgb(100, 50, 25));
    assert_eq!(get_color_for_height(100, dz, palette()), from_rgb(200, 100, 50));
    assert_eq!(get_color_for_height(500, dz, palette()), from_rgb(200, 100, 50));
    assert_eq!(get_color_for_height(-50, dz, palette()), from_rgb(0, 0, 155));
    assert_eq!(get_color_for_height(-100, dz, palette()), from_rgb(0, 0, 55));
}

#[test]
fn heightmap_image_maps_each_sample() {
    let dz = DimensionsZ { min_z: -100, max_z: 100 };
    let img = generate_heightmap(&vec![-101, 0, 50, -100], [2, 2], dz, palette());
    assert_eq!((img.width, img.height), (2, 2));
    assert_eq!(img.pixels[0].a, 0);
    assert_eq!(img.pixels[2], from_rgb(100, 50, 25));
    assert_eq!(img.pixels[3], from_rgb(0, 0, 55));
}
