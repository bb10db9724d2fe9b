use vstd::prelude::*;
use crate::color::{from_rgb, opaque, Rgba};
use crate::geometry::{lemma_row_major, lemma_row_major_bound, Dimensions, VERTEX_CNT, WORLD_MAP_GRID};
use crate::raster::Image;
use vstd::string::StringSliceAdditionalSpecFns;

verus! {

/// Where a pre-rendered map covers the world grid: its cells span
/// `[min_x, max_x] x [min_y, max_y]` at `grid_pxls` pixels per cell edge, in
/// the image named `file`.
#[derive(Clone, Debug)]
pub struct MapData {
    pub name: String,
    pub grid_pxls: i32,
    pub min_x: i32,
    pub max_x: i32,
    pub min_y: i32,
    pub max_y: i32,
    pub file: String,
}

/// A loaded plugin and whether it is active.
#[derive(Clone, Debug)]
pub struct PluginEntry {
    pub name: String,
    pub enabled: bool,
}

/// A decoded pre-rendered map image and its name.
#[derive(Clone, Debug)]
pub struct NamedImage {
    pub name: String,
    pub image: Image,
}

pub open spec fn bytes_of(s: String) -> Seq<u8> {
    vstd::utf8::encode_utf8(s@)
}

/// Position of the first `.` among the first `n` bytes of `s`.
pub open spec fn dot_before(s: Seq<u8>, n: nat) -> Option<int>
    decreases n,
{
    if n == 0 {
        None
    } else {
        match dot_before(s, (n - 1) as nat) {
            Some(i) => Some(i),
            None => if s[n - 1] == 46 {
                Some(n - 1)
            } else {
                None
            },
        }
    }
}

/// The bytes of `s` before its first `.`; `None` without a `.`.
pub open spec fn stem(s: Seq<u8>) -> Option<Seq<u8>> {
    match dot_before(s, s.len()) {
        Some(i) => Some(s.subrange(0, i)),
        None => None,
    }
}

proof fn lemma_dot_before(s: Seq<u8>, n: nat)
    requires
        n <= s.len(),
    ensures
        dot_before(s, n) matches Some(i) ==> 0 <= i < n && s[i] == 46 && forall|j: int| 0 <= j < i ==> s[j] != 46,
        dot_before(s, n) is None ==> forall|j: int| 0 <= j < n ==> s[j] != 46,
    decreases n,
{
    if n > 0 {
        lemma_dot_before(s, (n - 1) as nat);
    }
}

/// The name of a plugin file without its extension: its bytes before the
/// first `.`.
pub fn plugin_stem(name: &str) -> (r: Option<Vec<u8>>)
    ensures
        match r {
            Some(v) => stem(name.spec_bytes()) == Some(v@),
            None => stem(name.spec_bytes()) is None,
        },
{
    let bytes = name.as_bytes();
    let mut out: Vec<u8> = Vec::new();
    let mut i: usize = 0;
    while i < bytes.len()
        invariant
            bytes@ == name.spec_bytes(),
            i <= bytes.len(),
            out@ == bytes@.subrange(0, i as int),
            dot_before(bytes@, i as nat) is None,
        decreases bytes.len() - i,
    {
        if bytes[i] == 46 {
            proof {
                lemma_dot_before(bytes@, bytes.len() as nat);
                lemma_dot_before(bytes@, i as nat);
                lemma_dot_before(bytes@, (i + 1) as nat);
                if let Some(j) = dot_before(bytes@, bytes.len() as nat) {
                    assert(j == i);
                }
            }
            return Some(out);
        }
        out.push(bytes[i]);
        i = i + 1;
        assert(out@ =~= bytes@.subrange(0, i as int));
    }
    None
}

/// Index of the first enabled plugin among the first `n`.
pub open spec fn first_enabled(plugins: Seq<PluginEntry>, n: nat) -> Option<int>
    decreases n,
{
    if n == 0 {
        None
    } else {
        match first_enabled(plugins, (n - 1) as nat) {
            Some(i) => Some(i),
            None => if plugins[n - 1].enabled {
                Some(n - 1)
            } else {
                None
            },
        }
    }
}

/// The map type: the stem of the first enabled plugin's name.
pub open spec fn spec_map_type(plugins: Seq<PluginEntry>) -> Option<Seq<u8>> {
    match first_enabled(plugins, plugins.len()) {
        Some(i) => stem(bytes_of(plugins[i].name)),
        None => None,
    }
}

/// The map type of a load order: the name, without extension, of its first
/// enabled plugin. `None` when no plugin is enabled or its name has no
/// extension.
pub fn map_type(plugins: &Vec<PluginEntry>) -> (r: Option<Vec<u8>>)
    ensures
        match r {
            Some(v) => spec_map_type(plugins@) == Some(v@),
            None => spec_map_type(plugins@) is None,
        },
{
    let mut i: usize = 0;
    while i < plugins.len()
        invariant
            i <= plugins.len(),
            first_enabled(plugins@, i as nat) is None,
        decreases plugins.len() - i,
    {
        if plugins[i].enabled {
            proof {
                lemma_first_enabled_stable(plugins@, (i + 1) as nat, plugins.len() as nat);
            }
            return plugin_stem(plugins[i].name.as_str());
        }
        i = i + 1;
    }
    None
}

proof fn lemma_first_enabled_stable(plugins: Seq<PluginEntry>, n: nat, m: nat)
    requires
        n <= m,
        first_enabled(plugins, n) is Some,
    ensures
        first_enabled(plugins, m) == first_enabled(plugins, n),
    decreases m,
{
    if m > n {
        lemma_first_enabled_stable(plugins, n, (m - 1) as nat);
    }
}

pub open spec fn sat(v: int) -> int {
    if v < 0 {
        0
    } else {
        v
    }
}

/// The pixel rectangle `(x0, y0, x1, y1)` of a pre-rendered map that shows
/// the cells of `dims`, negative bounds raised to zero.
pub open spec fn spec_region(dims: Dimensions, m: MapData) -> (int, int, int, int) {
    let p = m.grid_pxls as int;
    (
        sat((dims.min_x - m.min_x) * p),
        sat((m.max_y - dims.max_y) * p),
        sat((dims.max_x - m.min_x + 1) * p),
        sat((m.max_y - dims.min_y + 1) * p),
    )
}

fn sat_mul(a: i64, b: i64) -> (r: u64)
    requires
        -0x1_0000_0000 <= a <= 0x1_0000_0000,
        -0x8000_0000 <= b <= 0x8000_0000,
    ensures
        r == sat(a * b),
{
    assert(-0x8000_0000_0000_0000 <= a * b <= 0x8000_0000_0000_0000) by (nonlinear_arith)
        requires
            -0x1_0000_0000 <= a <= 0x1_0000_0000,
            -0x8000_0000 <= b <= 0x8000_0000,
    ;
    let v = (a as i128) * (b as i128);
    assert(v == a * b);
    if v < 0 {
        0
    } else {
        v as u64
    }
}

/// The pixel rectangle of a pre-rendered map that shows the cells of `dims`.
pub fn ptmap_region(dims: &Dimensions, m: &MapData) -> (r: (u64, u64, u64, u64))
    ensures
        (r.0 as int, r.1 as int, r.2 as int, r.3 as int) == spec_region(*dims, *m),
{
    let p = m.grid_pxls as i64;
    (
        sat_mul(dims.min_x as i64 - m.min_x as i64, p),
        sat_mul(m.max_y as i64 - dims.max_y as i64, p),
        sat_mul(dims.max_x as i64 - m.min_x as i64 + 1, p),
        sat_mul(m.max_y as i64 - dims.min_y as i64 + 1, p),
    )
}

/// The rectangle lies inside the image.
pub open spec fn crop_fits(img: Image, x0: int, y0: int, x1: int, y1: int) -> bool {
    0 <= x0 <= x1 <= img.width && 0 <= y0 <= y1 <= img.height
}

/// `c` is the part `[x0, x1) x [y0, y1)` of `img`.
pub open spec fn is_crop(c: Image, img: Image, x0: int, y0: int, x1: int, y1: int) -> bool {
    &&& c.wf()
    &&& c.width == x1 - x0
    &&& c.height == y1 - y0
    &&& forall|j: int|
        0 <= j < c.pixels.len() ==> #[trigger] c.pixels@[j] == img.at(x0 + j % c.width as int, y0 + j / c.width as int)
}

/// The part `[x0, x1) x [y0, y1)` of an image; `None` when the rectangle does
/// not lie inside it.
pub fn region(img: &Image, x0: u64, y0: u64, x1: u64, y1: u64) -> (r: Option<Image>)
    requires
        img.wf(),
    ensures
        r is Some <==> crop_fits(*img, x0 as int, y0 as int, x1 as int, y1 as int),
        r matches Some(c) ==> is_crop(c, *img, x0 as int, y0 as int, x1 as int, y1 as int),
{
    if x0 > x1 || x1 > img.width as u64 || y0 > y1 || y1 > img.height as u64 {
        return None;
    }
    let (x0, y0, x1, y1) = (x0 as usize, y0 as usize, x1 as usize, y1 as usize);
    let cw = x1 - x0;
    let ch = y1 - y0;
    let mut pixels: Vec<Rgba> = Vec::new();
    let mut row: usize = 0;
    while row < ch
        invariant
            img.wf(),
            x0 <= x1 <= img.width,
            y0 <= y1 <= img.height,
            cw == x1 - x0,
            ch == y1 - y0,
            row <= ch,
            pixels.len() == row * cw,
            cw > 0 ==> forall|j: int|
                0 <= j < pixels.len() ==> #[trigger] pixels@[j] == img.at(x0 + j % (cw as int), y0 + j / (cw as int)),
        decreases ch - row,
    {
        let mut col: usize = 0;
        while col < cw
            invariant
                img.wf(),
                x0 <= x1 <= img.width,
                y0 <= y1 <= img.height,
                cw == x1 - x0,
                ch == y1 - y0,
                row < ch,
                col <= cw,
                pixels.len() == row * cw + col,
                cw > 0 ==> forall|j: int|
                    0 <= j < pixels.len() ==> #[trigger] pixels@[j] == img.at(x0 + j % (cw as int), y0 + j / (cw as int)),
            decreases cw - col,
        {
            proof {
                lemma_row_major((row * cw + col) as int, cw as int, row as int, col as int);
                lemma_row_major_bound(img.width as int, img.height as int, (y0 + row) as int, (x0 + col) as int);
            }
            pixels.push(img.pixels[(y0 + row) * img.width + (x0 + col)]);
            col = col + 1;
        }
        assert((row + 1) * cw == row * cw + cw) by (nonlinear_arith);
        row = row + 1;
    }
    assert(ch * cw == cw * ch) by (nonlinear_arith);
    Some(Image { width: cw, height: ch, pixels })
}

/// Index of the first image named `file` among the first `n`.
pub open spec fn find_image(images: Seq<NamedImage>, file: Seq<char>, n: nat) -> Option<int>
    decreases n,
{
    if n == 0 {
        None
    } else {
        match find_image(images, file, (n - 1) as nat) {
            Some(i) => Some(i),
            None => if images[n - 1].name@ == file {
                Some(n - 1)
            } else {
                None
            },
        }
    }
}

/// Map `j` is of the map type and its image holds the rectangle of `dims`.
pub open spec fn usable_map(dims: Dimensions, maps: Seq<MapData>, images: Seq<NamedImage>, ty: Seq<u8>, j: int) -> bool {
    let m = maps[j];
    let r = spec_region(dims, m);
    &&& bytes_of(m.name) == ty
    &&& find_image(images, m.file@, images.len()) matches Some(k)
    &&& images[k].image.wf()
    &&& crop_fits(images[k].image, r.0, r.1, r.2, r.3)
}

/// The last usable map among the first `n`.
pub open spec fn last_usable(dims: Dimensions, maps: Seq<MapData>, images: Seq<NamedImage>, ty: Seq<u8>, n: nat) -> Option<int>
    decreases n,
{
    if n == 0 {
        None
    } else if usable_map(dims, maps, images, ty, n - 1) {
        Some(n - 1)
    } else {
        last_usable(dims, maps, images, ty, (n - 1) as nat)
    }
}

fn find_named(images: &Vec<NamedImage>, file: &str) -> (r: Option<usize>)
    ensures
        match r {
            Some(k) => k < images.len() && find_image(images@, file@, images.len() as nat) == Some(k as int),
            None => find_image(images@, file@, images.len() as nat) is None,
        },
{
    let mut i: usize = 0;
    while i < images.len()
        invariant
            i <= images.len(),
            find_image(images@, file@, i as nat) is None,
        decreases images.len() - i,
    {
        if crate::territory::str_equals(images[i].name.as_str(), file) {
            proof {
                lemma_find_image_stable(images@, file@, (i + 1) as nat, images.len() as nat);
            }
            return Some(i);
        }
        i = i + 1;
    }
    None
}

proof fn lemma_find_image_stable(images: Seq<NamedImage>, file: Seq<char>, n: nat, m: nat)
    requires
        n <= m,
        find_image(images, file, n) is Some,
    ensures
        find_image(images, file, m) == find_image(images, file, n),
    decreases m,
{
    if m > n {
        lemma_find_image_stable(images, file, n, (m - 1) as nat);
    }
}

fn bytes_equal(a: &[u8], b: &Vec<u8>) -> (r: bool)
    ensures
        r == (a@ == b@),
{
    if a.len() != b.len() {
        return false;
    }
    let mut i: usize = 0;
    while i < a.len()
        invariant
            a.len() == b.len(),
            i <= a.len(),
            forall|j: int| 0 <= j < i ==> a@[j] == b@[j],
        decreases a.len() - i,
    {
        if a[i] != b[i] {
            return false;
        }
        i = i + 1;
    }
    assert(a@ =~= b@);
    true
}

/// Crops the pre-rendered map of the active load order to the rectangle of
/// `dims`: among the maps named after the first enabled plugin (its name
/// without extension), the last whose image holds the rectangle. Without such
/// a map the result is an opaque black image of `WORLD_MAP_GRID` pixels per
/// cell edge.
pub fn generate_ptmap(
    dims: &Dimensions,
    plugins: &Vec<PluginEntry>,
    maps: &Vec<MapData>,
    images: &Vec<NamedImage>,
) -> (img: Image)
    requires
        dims.wf(),
    ensures
        match spec_map_type(plugins@) {
            Some(ty) => match last_usable(*dims, maps@, images@, ty, maps.len() as nat) {
                Some(j) => {
                    let r = spec_region(*dims, maps@[j]);
                    let k = find_image(images@, maps@[j].file@, images.len() as nat)->Some_0;
                    is_crop(img, images@[k].image, r.0, r.1, r.2, r.3)
                },
                None => is_blank(img, *dims),
            },
            None => is_blank(img, *dims),
        },
{
    let ty = match map_type(plugins) {
        Some(t) => t,
        None => {
            return blank_map(dims);
        },
    };
    let mut best: Option<Image> = None;
    let mut j: usize = 0;
    while j < maps.len()
        invariant
            j <= maps.len(),
            spec_map_type(plugins@) == Some(ty@),
            match last_usable(*dims, maps@, images@, ty@, j as nat) {
                Some(q) => {
                    let r = spec_region(*dims, maps@[q]);
                    let k = find_image(images@, maps@[q].file@, images.len() as nat)->Some_0;
                    best matches Some(c) && is_crop(c, images@[k].image, r.0, r.1, r.2, r.3)
                },
                None => best is None,
            },
        decreases maps.len() - j,
    {
        let m = &maps[j];
        if bytes_equal(m.name.as_str().as_bytes(), &ty) {
            if let Some(k) = find_named(images, m.file.as_str()) {
                let source = &images[k].image;
                if source.is_wf() {
                    let (x0, y0, x1, y1) = ptmap_region(dims, m);
                    if let Some(c) = region(source, x0, y0, x1, y1) {
                        best = Some(c);
                    }
                }
            }
        }
        j = j + 1;
    }
    match best {
        Some(c) => c,
        None => blank_map(dims),
    }
}

/// An opaque black image of `WORLD_MAP_GRID` pixels per cell edge.
pub open spec fn is_blank(img: Image, dims: Dimensions) -> bool {
    &&& img.wf()
    &&& img.width == dims.spec_width() * 9
    &&& img.height == dims.spec_height() * 9
    &&& forall|j: int| 0 <= j < img.pixels.len() ==> #[trigger] img.pixels@[j] == opaque(0, 0, 0)
}

fn blank_map(dims: &Dimensions) -> (img: Image)
    requires
        dims.wf(),
    ensures
        is_blank(img, *dims),
{
    proof {
        dims.lemma_fits_smaller(WORLD_MAP_GRID as int, VERTEX_CNT as int);
    }
    let w = dims.pixel_width(WORLD_MAP_GRID);
    let h = dims.pixel_height(WORLD_MAP_GRID);
    let n = dims.pixel_size(WORLD_MAP_GRID);
    let mut pixels: Vec<Rgba> = Vec::with_capacity(n);
    let mut i: usize = 0;
    while i < n
        invariant
            i <= n,
            pixels.len() == i,
            forall|j: int| 0 <= j < i ==> #[trigger] pixels@[j] == opaque(0, 0, 0),
        decreases n - i,
    {
        pixels.push(from_rgb(0, 0, 0));
        i = i + 1;
    }
    Image { width: w, height: h, pixels }
}

} // verus!
