use vstd::prelude::*;
use crate::color::{spec_transparent, transparent, Rgba};
use crate::heights::DimensionsZ;
use crate::raster::Image;

verus! {

/// Colour ramps of the elevation raster: land runs from `height_low` at sea
/// level to `height_high` at the highest point, water from `depth_shallow` at
/// sea level to `depth_deep` at the lowest point.
#[derive(Clone, Copy, Debug, PartialEq, Eq, Structural)]
pub struct Palette {
    pub height_low: Rgba,
    pub height_high: Rgba,
    pub depth_shallow: Rgba,
    pub depth_deep: Rgba,
}

/// The channel `t / range` of the way from `a` to `b`, rounded towards `a`.
pub open spec fn lerp_channel(a: u8, b: u8, t: int, range: int) -> u8 {
    if b >= a {
        (a + (b - a) * t / range) as u8
    } else {
        (a - (a - b) * t / range) as u8
    }
}

pub open spec fn spec_lerp(a: Rgba, b: Rgba, t: int, range: int) -> Rgba {
    Rgba {
        r: lerp_channel(a.r, b.r, t, range),
        g: lerp_channel(a.g, b.g, t, range),
        b: lerp_channel(a.b, b.b, t, range),
        a: lerp_channel(a.a, b.a, t, range),
    }
}

fn lerp_u8(a: u8, b: u8, t: u64, range: u64) -> (r: u8)
    requires
        0 < range,
        t <= range,
    ensures
        r == lerp_channel(a, b, t as int, range as int),
{
    if b >= a {
        let span = (b - a) as u128;
        assert(span * t <= span * range) by (nonlinear_arith)
            requires
                t <= range,
        ;
        assert(span * t / (range as int) <= span) by (nonlinear_arith)
            requires
                span * t <= span * range,
                range > 0,
                span >= 0,
                t >= 0,
        ;
        assert(span * t <= 255 * 0xffff_ffff_ffff_ffff) by (nonlinear_arith)
            requires
                span <= 255,
                t <= 0xffff_ffff_ffff_ffff,
        ;
        let step = span * (t as u128) / (range as u128);
        (a as u128 + step) as u8
    } else {
        let span = (a - b) as u128;
        assert(span * t <= span * range) by (nonlinear_arith)
            requires
                t <= range,
        ;
        assert(span * t / (range as int) <= span) by (nonlinear_arith)
            requires
                span * t <= span * range,
                range > 0,
                span >= 0,
                t >= 0,
        ;
        assert(span * t <= 255 * 0xffff_ffff_ffff_ffff) by (nonlinear_arith)
            requires
                span <= 255,
                t <= 0xffff_ffff_ffff_ffff,
        ;
        let step = span * (t as u128) / (range as u128);
        (a as u128 - step) as u8
    }
}

fn lerp(a: Rgba, b: Rgba, t: u64, range: u64) -> (r: Rgba)
    requires
        0 < range,
        t <= range,
    ensures
        r == spec_lerp(a, b, t as int, range as int),
{
    Rgba {
        r: lerp_u8(a.r, b.r, t, range),
        g: lerp_u8(a.g, b.g, t, range),
        b: lerp_u8(a.b, b.b, t, range),
        a: lerp_u8(a.a, b.a, t, range),
    }
}

pub open spec fn spec_min(a: int, b: int) -> int {
    if a <= b { a } else { b }
}

/// Colour of land at height `value >= 0`: `height_low` at sea level,
/// `height_high` from `max_z` up.
pub open spec fn spec_height_to_color(value: int, dz: DimensionsZ, palette: Palette) -> Rgba {
    if dz.max_z <= 0 {
        palette.height_low
    } else {
        spec_lerp(palette.height_low, palette.height_high, spec_min(value, dz.max_z as int), dz.max_z as int)
    }
}

/// Colour of water at height `value < 0`: `depth_shallow` at sea level,
/// `depth_deep` from `min_z` down.
pub open spec fn spec_depth_to_color(value: int, dz: DimensionsZ, palette: Palette) -> Rgba {
    if dz.min_z >= 0 {
        palette.depth_shallow
    } else {
        spec_lerp(palette.depth_shallow, palette.depth_deep, spec_min(-value, -dz.min_z), -dz.min_z)
    }
}

/// Colour of one elevation sample: transparent below the global minimum (the
/// no-data sentinel), the depth ramp below sea level, the height ramp above.
pub open spec fn spec_color_for_height(value: int, dz: DimensionsZ, palette: Palette) -> Rgba {
    if value < dz.min_z {
        spec_transparent()
    } else if value < 0 {
        spec_depth_to_color(value, dz, palette)
    } else {
        spec_height_to_color(value, dz, palette)
    }
}

/// Colour of land at height `value`.
pub fn height_to_color(value: i64, dz: DimensionsZ, palette: Palette) -> (c: Rgba)
    requires
        value >= 0,
    ensures
        c == spec_height_to_color(value as int, dz, palette),
{
    if dz.max_z <= 0 {
        palette.height_low
    } else {
        let t = if value < dz.max_z { value } else { dz.max_z };
        lerp(palette.height_low, palette.height_high, t as u64, dz.max_z as u64)
    }
}

/// Colour of water at height `value`.
pub fn depth_to_color(value: i64, dz: DimensionsZ, palette: Palette) -> (c: Rgba)
    requires
        value < 0,
    ensures
        c == spec_depth_to_color(value as int, dz, palette),
{
    if dz.min_z >= 0 {
        palette.depth_shallow
    } else {
        let depth = (0 - (value as i128)) as u64;
        let range = (0 - (dz.min_z as i128)) as u64;
        let t = if depth < range { depth } else { range };
        lerp(palette.depth_shallow, palette.depth_deep, t, range)
    }
}

/// Colour of one elevation sample.
pub fn get_color_for_height(value: i64, dz: DimensionsZ, palette: Palette) -> (c: Rgba)
    ensures
        c == spec_color_for_height(value as int, dz, palette),
{
    if value < dz.min_z {
        transparent()
    } else if value < 0 {
        depth_to_color(value, dz, palette)
    } else {
        height_to_color(value, dz, palette)
    }
}

/// Colours an elevation buffer of `size[0]` x `size[1]` samples.
pub fn generate_heightmap(pixels: &Vec<i64>, size: [usize; 2], dz: DimensionsZ, palette: Palette) -> (img: Image)
    requires
        pixels.len() == size[0] * size[1],
    ensures
        img.wf(),
        img.width == size[0],
        img.height == size[1],
        forall|j: int| 0 <= j < pixels.len() ==> #[trigger] img.pixels@[j] == spec_color_for_height(pixels@[j] as int, dz, palette),
{
    let mut out: Vec<Rgba> = Vec::with_capacity(pixels.len());
    let mut i: usize = 0;
    while i < pixels.len()
        invariant
            i <= pixels.len(),
            out.len() == i,
            forall|j: int| 0 <= j < i ==> #[trigger] out@[j] == spec_color_for_height(pixels@[j] as int, dz, palette),
        decreases pixels.len() - i,
    {
        out.push(get_color_for_height(pixels[i], dz, palette));
        i = i + 1;
    }
    Image { width: size[0], height: size[1], pixels: out }
}

} // verus!
