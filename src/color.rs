use vstd::prelude::*;

verus! {

/// An RGBA pixel with 8 bits per channel.
#[derive(Clone, Copy, Debug, PartialEq, Eq, Structural)]
pub struct Rgba {
    pub r: u8,
    pub g: u8,
    pub b: u8,
    pub a: u8,
}

pub open spec fn spec_transparent() -> Rgba {
    Rgba { r: 0, g: 0, b: 0, a: 0 }
}

/// Fully transparent black: the colour of pixels that hold no data.
pub fn transparent() -> (c: Rgba)
    ensures
        c == spec_transparent(),
{
    Rgba { r: 0, g: 0, b: 0, a: 0 }
}

pub open spec fn spec_default_color() -> Rgba {
    Rgba { r: 128, g: 128, b: 128, a: 255 }
}

/// Background colour of cells that carry no usable texture.
pub fn default_color() -> (c: Rgba)
    ensures
        c == spec_default_color(),
{
    Rgba { r: 128, g: 128, b: 128, a: 255 }
}

pub open spec fn spec_water_tint() -> Rgba {
    Rgba { r: 0, g: 0, b: 255, a: 255 }
}

/// Tint blended over terrain that lies below sea level.
pub fn water_tint() -> (c: Rgba)
    ensures
        c == spec_water_tint(),
{
    Rgba { r: 0, g: 0, b: 255, a: 255 }
}

pub open spec fn opaque(r: u8, g: u8, b: u8) -> Rgba {
    Rgba { r, g, b, a: 255 }
}

/// An opaque colour from its three channels.
pub fn from_rgb(r: u8, g: u8, b: u8) -> (c: Rgba)
    ensures
        c == opaque(r, g, b),
{
    Rgba { r, g, b, a: 255 }
}

/// Channel `v` scaled by `percent` / 100, rounded half up.
pub open spec fn scale_channel(v: u8, percent: u8) -> u8 {
    ((v * percent + 50) / 100) as u8
}

pub open spec fn spec_scale(c: Rgba, percent: u8) -> Rgba {
    Rgba {
        r: scale_channel(c.r, percent),
        g: scale_channel(c.g, percent),
        b: scale_channel(c.b, percent),
        a: scale_channel(c.a, percent),
    }
}

fn scale_u8(v: u8, percent: u8) -> (r: u8)
    requires
        percent <= 100,
    ensures
        r == scale_channel(v, percent),
{
    assert(v * percent <= 25500) by (nonlinear_arith)
        requires
            v <= 255,
            percent <= 100,
    ;
    let x: u32 = (v as u32) * (percent as u32) + 50;
    (x / 100) as u8
}

/// Multiplies every channel, alpha included, by `percent` / 100: the colour
/// fades towards full transparency.
pub fn gamma_multiply(c: Rgba, percent: u8) -> (r: Rgba)
    requires
        percent <= 100,
    ensures
        r == spec_scale(c, percent),
{
    Rgba {
        r: scale_u8(c.r, percent),
        g: scale_u8(c.g, percent),
        b: scale_u8(c.b, percent),
        a: scale_u8(c.a, percent),
    }
}

pub open spec fn spec_blend_half(base: Rgba, tint: Rgba) -> Rgba {
    Rgba {
        r: ((base.r + tint.r) / 2) as u8,
        g: ((base.g + tint.g) / 2) as u8,
        b: ((base.b + tint.b) / 2) as u8,
        a: ((base.a + tint.a) / 2) as u8,
    }
}

/// Lays `tint` over `base` at 50% opacity: each channel is the mean of the two.
pub fn overlay_half(base: Rgba, tint: Rgba) -> (r: Rgba)
    ensures
        r == spec_blend_half(base, tint),
{
    Rgba {
        r: ((base.r as u16 + tint.r as u16) / 2) as u8,
        g: ((base.g as u16 + tint.g as u16) / 2) as u8,
        b: ((base.b as u16 + tint.b as u16) / 2) as u8,
        a: ((base.a as u16 + tint.a as u16) / 2) as u8,
    }
}

/// The packed byte of a colour: the top two bits of red, green and blue.
pub open spec fn spec_pack(c: Rgba) -> int {
    (c.r / 64) * 16 + (c.g / 64) * 4 + c.b / 64
}

/// A channel kept to its top two bits.
pub open spec fn quantize(v: u8) -> u8 {
    ((v / 64) * 64) as u8
}

pub open spec fn spec_unpack(p: i8) -> Rgba {
    let u = p as u8;
    opaque((((u / 16) % 4) * 64) as u8, (((u / 4) % 4) * 64) as u8, ((u % 4) * 64) as u8)
}

/// Packs a colour into one signed byte `(r2 << 4) | (g2 << 2) | b2`, where
/// `x2` is the top two bits of channel `x`; alpha is dropped.
pub fn pack_rgb(c: Rgba) -> (p: i8)
    ensures
        p == spec_pack(c),
        0 <= p < 64,
{
    let (cr, cg, cb) = (c.r, c.g, c.b);
    let r = (cr >> 6u8) & 3u8;
    let g = (cg >> 6u8) & 3u8;
    let b = (cb >> 6u8) & 3u8;
    assert(r == cr / 64 && g == cg / 64 && b == cb / 64) by (bit_vector)
        requires
            r == (cr >> 6u8) & 3u8,
            g == (cg >> 6u8) & 3u8,
            b == (cb >> 6u8) & 3u8,
    ;
    let packed: u8 = (r << 4u8) | (g << 2u8) | b;
    assert(packed == r * 16 + g * 4 + b) by (bit_vector)
        requires
            r < 4,
            g < 4,
            b < 4,
            packed == (r << 4u8) | (g << 2u8) | b,
    ;
    packed as i8
}

/// Expands a packed byte back to an opaque colour: each two-bit field is put
/// back in the high bits of its channel, the low six bits are zero.
pub fn unpack_rgb(packed: i8) -> (c: Rgba)
    ensures
        c == spec_unpack(packed),
{
    let u = packed as u8;
    let r = ((u >> 4u8) & 3u8) << 6u8;
    let g = ((u >> 2u8) & 3u8) << 6u8;
    let b = (u & 3u8) << 6u8;
    assert(r == ((u / 16) % 4) * 64 && g == ((u / 4) % 4) * 64 && b == (u % 4) * 64)
        by (bit_vector)
        requires
            r == ((u >> 4u8) & 3u8) << 6u8,
            g == ((u >> 2u8) & 3u8) << 6u8,
            b == (u & 3u8) << 6u8,
    ;
    from_rgb(r, g, b)
}

/// Packing then unpacking an opaque colour keeps the top two bits of each
/// channel and clears the low six.
pub proof fn lemma_pack_unpack_quantizes(c: Rgba)
    requires
        c.a == 255,
    ensures
        spec_unpack(spec_pack(c) as i8) == opaque(quantize(c.r), quantize(c.g), quantize(c.b)),
{
    let p = spec_pack(c);
    assert(0 <= p < 64);
    assert((p as i8) as u8 == p);
    assert((p / 16) % 4 == c.r / 64);
    assert((p / 4) % 4 == c.g / 64);
    assert(p % 4 == c.b / 64);
}

/// Round trip: an opaque colour whose channels have their low six bits clear
/// is reproduced exactly by packing then unpacking.
pub proof fn lemma_pack_unpack_round_trip(c: Rgba)
    requires
        c.a == 255,
        c.r % 64 == 0,
        c.g % 64 == 0,
        c.b % 64 == 0,
    ensures
        spec_unpack(spec_pack(c) as i8) == c,
{
    lemma_pack_unpack_quantizes(c);
}

} // verus!
