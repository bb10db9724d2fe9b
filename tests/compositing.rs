use std::collections::HashMap;
use tes3map::cell_map::CellMap;
use tes3map::color::{from_rgb, pack_rgb, Rgba};
use tes3map::gamemap::generate_map;
use tes3map::geometry::Dimensions;
use tes3map::heightmap::{generate_heightmap, Palette};
use tes3map::heights::calculate_heights;
use tes3map::landscape::{compute_landscape_image, required_textures, Texture};
use tes3map::terrain::Landscape;

const DEFAULT: Rgba = Rgba { r: 128, g: 128, b: 128, a: 255 };

fn textured(indices: Vec<u16>) -> Landscape {
    Landscape {
        uses_heights: true,
        uses_textures: true,
        height_offset: 1,
        height_deltas: vec![0; 65 * 65],
        texture_indices: indices,
        world_map: vec![0; 81],
    }
}

fn solid(size: usize, c: Rgba) -> Texture {
    Texture { size, pixels: vec![c; size * size] }
}

#[test]
fn untextured_cell_shows_default_color() {
    let dims = Dimensions { min_x: 0, max_x: 1, min_y: 0, max_y: 0, texture_size: 1 };
    let mut records = CellMap::new(&dims);
    assert!(records.insert(1, 0, textured(vec![4; 256])));
    let mut textures = HashMap::new();
    textures.insert(4u32, solid(1, from_rgb(1, 2, 3)));
    let heights = vec![10i64; 130 * 65];
    let img = compute_landscape_image(&dims, &records, &textures, &heights).unwrap();
    assert_eq!((img.width, img.height), (32, 16));
    for y in 0..16 {
        for x in 0..16 {
            assert_eq!(img.pixels[y * 32 + x], DEFAULT);
            assert_eq!(img.pixels[y * 32 + 16 + x], from_rgb(1, 2, 3));
        }
    }
}

#[test]
fn missing_texture_degrades_its_tiles_only() {
    let dims = Dimensions { min_x: 0, max_x: 0, min_y: 0, max_y: 0, texture_size: 1 };
    let mut indices = vec![4u16; 256];
    indices[0] = 9;
    let mut records = CellMap::new(&dims);
    assert!(records.insert(0, 0, textured(indices)));
    let mut textures = HashMap::new();
    textures.insert(4u32, solid(1, from_rgb(1, 2, 3)));
    let heights = vec![10i64; 65 * 65];
    let img = compute_landscape_image(&dims, &records, &textures, &heights).unwrap();
    // Slot 0 holds tile (0, 0): the bottom-left tile of the cell.
    assert_eq!(img.pixels[15 * 16], DEFAULT);
    assert_eq!(img.pixels[0], from_rgb(1, 2, 3));
    assert_eq!(img.pixels[15 * 16 + 1], from_rgb(1, 2, 3));
}

#[test]
fn tiles_follow_the_interleaved_layout() {
    let dims = Dimensions { min_x: 0, max_x: 0, min_y: 0, max_y: 0, texture_size: 1 };
    let indices: Vec<u16> = (0..256).collect();
    let mut records = CellMap::new(&dims);
    assert!(records.insert(0, 0, textured(indices)));
    let mut textures = HashMap::new();
    for k in 0..256u32 {
        textures.insert(k, solid(1, from_rgb(k as u8, 0, 0)));
    }
    let heights = vec![10i64; 65 * 65];
    let img = compute_landscape_image(&dims, &records, &textures, &heights).unwrap();
    for ty in 0..16usize {
        for tx in 0..16usize {
            let gx = tx;
            let gy = 15 - ty;
            let slot = (4 * (gy / 4) + gx / 4) * 16 + 4 * (gy % 4) + gx % 4;
            assert_eq!(img.pixels[ty * 16 + tx].r as usize, slot);
        }
    }
    assert_eq!(img.pixels[5].r, 221);
}

#[test]
fn textures_are_sampled_with_a_stride() {
    let dims = Dimensions { min_x: 0, max_x: 0, min_y: 0, max_y: 0, texture_size: 2 };
    let mut records = CellMap::new(&dims);
    assert!(records.insert(0, 0, textured(vec![1; 256])));
    let pixels: Vec<Rgba> = (0..16u8).map(|i| from_rgb(i, 0, 0)).collect();
    let mut textures = HashMap::new();
    textures.insert(1u32, Texture { size: 4, pixels });
    let heights = vec![0i64; 65 * 65];
    let img = compute_landscape_image(&dims, &records, &textures, &heights).unwrap();
    assert_eq!((img.width, img.height), (32, 32));
    assert_eq!(img.pixels[0].r, 0);
    assert_eq!(img.pixels[1].r, 2);
    assert_eq!(img.pixels[32].r, 8);
    assert_eq!(img.pixels[33].r, 10);
    assert_eq!(img.pixels[2].r, 0);
}

#[test]
fn water_blends_blue_at_half_opacity() {
    let dims = Dimensions { min_x: 0, max_x: 0, min_y: 0, max_y: 0, texture_size: 1 };
    let mut records = CellMap::new(&dims);
    assert!(records.insert(0, 0, textured(vec![2; 256])));
    let mut textures = HashMap::new();
    textures.insert(2u32, solid(3, from_rgb(100, 50, 1)));
    let mut heights = vec![5i64; 65 * 65];
    heights[0] = -1;
    let img = compute_landscape_image(&dims, &records, &textures, &heights).unwrap();
    assert_eq!(img.pixels[0], Rgba { r: 50, g: 25, b: 128, a: 255 });
    assert_eq!(img.pixels[1], from_rgb(100, 50, 1));
}

#[test]
fn landscape_refuses_without_elevation() {
    let dims = Dimensions { min_x: 0, max_x: 0, min_y: 0, max_y: 0, texture_size: 1 };
    let records = CellMap::new(&dims);
    let textures = HashMap::new();
    assert!(compute_landscape_image(&dims, &records, &textures, &vec![]).is_none());
    assert!(compute_landscape_image(&dims, &records, &textures, &vec![0; 65 * 65 - 1]).is_none());
}

#[test]
fn required_textures_lists_each_index_once() {
    let dims = Dimensions { min_x: 0, max_x: 2, min_y: 0, max_y: 0, texture_size: 1 };
    let mut records = CellMap::new(&dims);
    let mut a = vec![3u16; 256];
    a[7] = 5;
    assert!(records.insert(0, 0, textured(a)));
    assert!(records.insert(2, 0, textured(vec![5; 256])));
    let mut no_tex = textured(vec![9; 256]);
    no_tex.uses_textures = false;
    assert!(records.insert(1, 0, no_tex));
    let mut keys = required_textures(&dims, &records);
    keys.sort();
    assert_eq!(keys, vec![3, 5]);
}

#[test]
fn overview_map_unpacks_cell_colors() {
    let dims = Dimensions { min_x: 0, max_x: 1, min_y: 0, max_y: 0, texture_size: 1 };
    let mut records = CellMap::new(&dims);
    let mut world = vec![pack_rgb(from_rgb(0, 0, 192)); 81];
    world[0] = pack_rgb(from_rgb(192, 0, 0));
    let mut l = textured(vec![0; 256]);
    l.world_map = world;
    assert!(records.insert(1, 0, l));
    let img = generate_map(&dims, &records);
    assert_eq!((img.width, img.height), (18, 9));
    assert_eq!(img.pixels[0], Rgba { r: 0, g: 0, b: 0, a: 0 });
    // Stored row 0 lies at the bottom of the cell's block.
    assert_eq!(img.pixels[8 * 18 + 9], from_rgb(192, 0, 0));
    assert_eq!(img.pixels[9], from_rgb(0, 0, 192));
}

#[test]
fn single_cell_end_to_end_has_no_transparent_pixel() {
    let dims = Dimensions { min_x: 0, max_x: 0, min_y: 0, max_y: 0, texture_size: 4 };
    let mut deltas = vec![0i8; 65 * 65];
    deltas[0] = -3;
    deltas[100] = 7;
    let mut l = textured(vec![6; 256]);
    l.height_deltas = deltas;
    let mut records = CellMap::new(&dims);
    assert!(records.insert(0, 0, l));
    let (heights, dz) = calculate_heights(&records, &dims).unwrap();
    let palette = Palette {
        height_low: from_rgb(10, 10, 10),
        height_high: from_rgb(250, 250, 250),
        depth_shallow: from_rgb(0, 0, 200),
        depth_deep: from_rgb(0, 0, 50),
    };
    let hm = generate_heightmap(&heights, [65, 65], dz, palette);
    assert_eq!((hm.width, hm.height), (65, 65));
    assert!(hm.pixels.iter().all(|p| p.a != 0));
    let mut textures = HashMap::new();
    textures.insert(6u32, solid(8, from_rgb(20, 40, 60)));
    let tex = compute_landscape_image(&dims, &records, &textures, &heights).unwrap();
    assert_eq!((tex.width, tex.height), (64, 64));
    assert_eq!(tex.pixels.len(), 64 * 64);
    assert!(tex.pixels.iter().all(|p| p.a != 0));
}
