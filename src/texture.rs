use vstd::prelude::*;
use crate::color::Rgba;
use crate::landscape::Texture;
use crate::raster::Image;

verus! {

#[verifier::external_type_specification]
#[verifier::external_body]
pub struct ExImageError(image::ImageError);

/// Width, height and RGBA bytes (row-major, four per pixel) of the image
/// encoded in a byte string, or `None` when it cannot be decoded.
pub uninterp spec fn decoded_rgba_of(data: Seq<u8>) -> Option<(u32, u32, Seq<u8>)>;

/// Relies on `image::load_from_memory`, with `DynamicImage::to_rgba8`: decodes
/// an encoded image (its format guessed from its first bytes) into 8-bit RGBA.
#[verifier::external_body]
fn decode_rgba(data: &[u8]) -> (r: Result<(u32, u32, Vec<u8>), image::ImageError>)
    ensures
        match r {
            Ok((w, h, px)) => decoded_rgba_of(data@) == Some((w, h, px@)),
            Err(_) => decoded_rgba_of(data@) is None,
        },
{
    match image::load_from_memory(data) {
        Ok(img) => {
            let rgba = img.to_rgba8();
            let (w, h) = rgba.dimensions();
            Ok((w, h, rgba.into_raw()))
        },
        Err(e) => Err(e),
    }
}

/// Why an encoded image could not be loaded.
#[derive(Debug)]
pub enum ImageLoadError {
    /// The decoder refused the bytes.
    Decode(image::ImageError),
    /// The decoded buffer does not hold four bytes per pixel.
    Malformed,
}

/// Pixel `k` of a buffer of RGBA bytes.
pub open spec fn rgba_at(px: Seq<u8>, k: int) -> Rgba {
    Rgba { r: px[4 * k], g: px[4 * k + 1], b: px[4 * k + 2], a: px[4 * k + 3] }
}

/// The decoded buffer holds exactly four bytes per pixel.
pub open spec fn well_sized(d: (u32, u32, Seq<u8>)) -> bool {
    d.2.len() == 4 * (d.0 * d.1)
}

/// Turns RGBA bytes into an image of `w` x `h` pixels.
pub fn image_from_rgba(w: u32, h: u32, px: &Vec<u8>) -> (r: Option<Image>)
    ensures
        r is Some <==> px@.len() == 4 * (w * h),
        r matches Some(img) ==> {
            &&& img.wf()
            &&& img.width == w
            &&& img.height == h
            &&& forall|k: int| 0 <= k < img.pixels.len() ==> #[trigger] img.pixels@[k] == rgba_at(px@, k)
        },
{
    assert((w as u64) * (h as u64) <= 0xffff_fffe_0000_0001) by (nonlinear_arith)
        requires
            w <= 0xffff_ffff,
            h <= 0xffff_ffff,
    ;
    let n: u64 = (w as u64) * (h as u64);
    if n > (px.len() / 4) as u64 || px.len() % 4 != 0 || (px.len() / 4) as u64 != n {
        return None;
    }
    let count = px.len() / 4;
    let mut pixels: Vec<Rgba> = Vec::with_capacity(count);
    let mut k: usize = 0;
    while k < count
        invariant
            count == px.len() / 4,
            px.len() % 4 == 0,
            k <= count,
            pixels.len() == k,
            forall|j: int| 0 <= j < k ==> #[trigger] pixels@[j] == rgba_at(px@, j),
        decreases count - k,
    {
        let i = 4 * k;
        pixels.push(Rgba { r: px[i], g: px[i + 1], b: px[i + 2], a: px[i + 3] });
        k = k + 1;
    }
    Some(Image { width: w as usize, height: h as usize, pixels })
}

/// Decodes an encoded image (PNG, DDS, TGA) into an RGBA image.
pub fn load_image_as_color_image(data: &[u8]) -> (r: Result<Image, ImageLoadError>)
    ensures
        match r {
            Ok(img) => decoded_rgba_of(data@) matches Some(d) && well_sized(d) && img.wf() && img.width
                == d.0 && img.height == d.1 && forall|k: int|
                0 <= k < img.pixels.len() ==> #[trigger] img.pixels@[k] == rgba_at(d.2, k),
            Err(ImageLoadError::Decode(_)) => decoded_rgba_of(data@) is None,
            Err(ImageLoadError::Malformed) => decoded_rgba_of(data@) matches Some(d) && !well_sized(d),
        },
{
    match decode_rgba(data) {
        Ok((w, h, px)) => match image_from_rgba(w, h, &px) {
            Some(img) => Ok(img),
            None => Err(ImageLoadError::Malformed),
        },
        Err(e) => Err(ImageLoadError::Decode(e)),
    }
}

/// A square image with at least one pixel, as a texture atlas.
pub fn texture_from_image(img: Image) -> (r: Option<Texture>)
    ensures
        r is Some <==> (img.wf() && img.width == img.height && img.width >= 1),
        r matches Some(t) ==> t.size == img.width && t.pixels@ == img.pixels@,
{
    if img.width == img.height && img.width >= 1 && img.pixels.len() / img.width == img.height
        && img.pixels.len() % img.width == 0 {
        proof {
            vstd::arithmetic::div_mod::lemma_fundamental_div_mod(img.pixels.len() as int, img.width as int);
            assert(img.width * img.height == img.height * img.width) by (nonlinear_arith);
        }
        Some(Texture { size: img.width, pixels: img.pixels })
    } else {
        proof {
            if img.wf() && img.width == img.height && img.width >= 1 {
                crate::geometry::lemma_row_major(img.pixels.len() as int, img.width as int, img.height as int, 0);
            }
        }
        None
    }
}

/// Decodes an encoded square texture atlas; `None` when it cannot be decoded
/// or is not square.
pub fn load_texture(data: &[u8]) -> (r: Option<Texture>)
    ensures
        r matches Some(t) ==> decoded_rgba_of(data@) matches Some(d) && well_sized(d) && d.0 == d.1 && d.0 >= 1
            && t.size == d.0 && forall|k: int| 0 <= k < t.pixels.len() ==> #[trigger] t.pixels@[k] == rgba_at(d.2, k),
        r is None ==> !(decoded_rgba_of(data@) matches Some(d) && well_sized(d) && d.0 == d.1 && d.0 >= 1),
{
    match load_image_as_color_image(data) {
        Ok(img) => texture_from_image(img),
        Err(_) => None,
    }
}

} // verus!
