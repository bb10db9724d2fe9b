use tes3map::color::{from_rgb, Rgba};
use tes3map::geometry::Dimensions;
use tes3map::ptmap::{generate_ptmap, map_type, plugin_stem, ptmap_region, region, MapData, NamedImage, PluginEntry};
use tes3map::raster::Image;
use tes3map::texture::{image_from_rgba, load_image_as_color_image, load_texture, texture_from_image, ImageLoadError};

const PNG_2X2: [u8; 78] = [
    137, 80, 78, 71, 13, 10, 26, 10, 0, 0, 0, 13, 73, 72, 68, 82, 0, 0, 0, 2, 0, 0, 0, 2, 8, 6, 0, 0, 0, 114, 182,
    13, 36, 0, 0, 0, 21, 73, 68, 65, 84, 120, 156, 99, 248, 207, 192, 240, 31, 12, 129, 244, 127, 46, 17, 57, 13, 0,
    64, 154, 6, 95, 17, 64, 255, 160, 0, 0, 0, 0, 73, 69, 78, 68, 174, 66, 96, 130,
];

const PNG_2X1: [u8; 74] = [
    137, 80, 78, 71, 13, 10, 26, 10, 0, 0, 0, 13, 73, 72, 68, 82, 0, 0, 0, 2, 0, 0, 0, 1, 8, 6, 0, 0, 0, 244, 34,
    127, 138, 0, 0, 0, 17, 73, 68, 65, 84, 120, 156, 99, 96, 100, 98, 254, 207, 194, 202, 246, 31, 0, 6, 86, 2, 20,
    132, 155, 208, 139, 0, 0, 0, 0, 73, 69, 78, 68, 174, 66, 96, 130,
];

#[test]
fn png_decodes_to_rgba_pixels() {
    let img = load_image_as_color_image(&PNG_2X2).unwrap();
    assert_eq!((img.width, img.height), (2, 2));
    assert_eq!(
        img.pixels,
        vec![from_rgb(255, 0, 0), from_rgb(0, 255, 0), from_rgb(0, 0, 255), Rgba { r: 10, g: 20, b: 30, a: 40 }]
    );
}

#[test]
fn garbage_is_a_decode_error() {
    assert!(matches!(load_image_as_color_image(&[1, 2, 3, 4, 5]), Err(ImageLoadError::Decode(_))));
    assert!(matches!(load_image_as_color_image(&[]), Err(ImageLoadError::Decode(_))));
}

#[test]
fn textures_must_be_square() {
    let t = load_texture(&PNG_2X2).unwrap();
    assert_eq!(t.size, 2);
    assert_eq!(t.pixels[3], Rgba { r: 10, g: 20, b: 30, a: 40 });
    assert!(load_texture(&PNG_2X1).is_none());
    assert!(load_texture(&[0, 1]).is_none());
}

#[test]
fn rgba_bytes_need_four_per_pixel() {
    let img = image_from_rgba(1, 2, &vec![1, 2, 3, 4, 5, 6, 7, 8]).unwrap();
    assert_eq!(img.pixels, vec![Rgba { r: 1, g: 2, b: 3, a: 4 }, Rgba { r: 5, g: 6, b: 7, a: 8 }]);
    assert!(image_from_rgba(1, 2, &vec![1, 2, 3, 4]).is_none());
    assert!(image_from_rgba(2, 2, &vec![0; 15]).is_none());
}

#[test]
fn empty_image_is_no_texture() {
    let img = Image { width: 0, height: 0, pixels: vec![] };
    assert!(texture_from_image(img).is_none());
}

#[test]
fn plugin_stem_stops_at_first_dot() {
    assert_eq!(plugin_stem("Morrowind.esm"), Some(b"Morrowind".to_vec()));
    assert_eq!(plugin_stem("a.b.esp"), Some(b"a".to_vec()));
    assert_eq!(plugin_stem("NoExtension"), None);
}

fn plugin(name: &str, enabled: bool) -> PluginEntry {
    PluginEntry { name: name.to_string(), enabled }
}

#[test]
fn map_type_comes_from_first_enabled_plugin() {
    let p = vec![plugin("Off.esp", false), plugin("TR_Mainland.esm", true), plugin("Other.esm", true)];
    assert_eq!(map_type(&p), Some(b"TR_Mainland".to_vec()));
    assert_eq!(map_type(&vec![plugin("Off.esp", false)]), None);
}

fn meta(name: &str, file: &str) -> MapData {
    MapData { name: name.to_string(), grid_pxls: 1, min_x: -1, max_x: 2, min_y: -1, max_y: 2, file: file.to_string() }
}

fn numbered(w: usize, h: usize) -> Image {
    Image { width: w, height: h, pixels: (0..w * h).map(|i| from_rgb(i as u8, 0, 0)).collect() }
}

#[test]
fn crop_takes_the_inner_rectangle() {
    let img = numbered(4, 4);
    let c = region(&img, 1, 1, 3, 3).unwrap();
    assert_eq!((c.width, c.height), (2, 2));
    let reds: Vec<u8> = c.pixels.iter().map(|p| p.r).collect();
    assert_eq!(reds, vec![5, 6, 9, 10]);
    assert!(region(&img, 3, 0, 5, 1).is_none());
    assert!(region(&img, 2, 0, 1, 1).is_none());
}

#[test]
fn ptmap_region_scales_by_grid_pixels() {
    let dims = Dimensions { min_x: 0, max_x: 1, min_y: 0, max_y: 1, texture_size: 1 };
    let mut m = meta("X", "x");
    assert_eq!(ptmap_region(&dims, &m), (1, 1, 3, 3));
    m.grid_pxls = 10;
    m.min_x = 5;
    assert_eq!(ptmap_region(&dims, &m), (0, 10, 0, 30));
}

#[test]
fn ptmap_crops_the_matching_map() {
    let dims = Dimensions { min_x: 0, max_x: 1, min_y: 0, max_y: 1, texture_size: 1 };
    let plugins = vec![plugin("TR.esm", true)];
    let maps = vec![meta("Other", "o"), meta("TR", "tr")];
    let images = vec![
        NamedImage { name: "o".to_string(), image: numbered(2, 2) },
        NamedImage { name: "tr".to_string(), image: numbered(4, 4) },
    ];
    let img = generate_ptmap(&dims, &plugins, &maps, &images);
    assert_eq!((img.width, img.height), (2, 2));
    let reds: Vec<u8> = img.pixels.iter().map(|p| p.r).collect();
    assert_eq!(reds, vec![5, 6, 9, 10]);
}

#[test]
fn ptmap_without_match_is_black() {
    let dims = Dimensions { min_x: 0, max_x: 1, min_y: 0, max_y: 1, texture_size: 1 };
    let maps = vec![meta("TR", "tr")];
    let images = vec![NamedImage { name: "tr".to_string(), image: numbered(4, 4) }];
    let img = generate_ptmap(&dims, &vec![plugin("Morrowind.esm", true)], &maps, &images);
    assert_eq!((img.width, img.height), (18, 18));
    assert!(img.pixels.iter().all(|p| *p == from_rgb(0, 0, 0)));
    let none = generate_ptmap(&dims, &vec![], &maps, &images);
    assert_eq!(none.pixels.len(), 18 * 18);
}
