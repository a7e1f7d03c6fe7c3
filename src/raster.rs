use vstd::prelude::*;

use crate::text::{chars_of, ends_with, has_prefix};

verus! {

/// Width and height, in pixels, of the icons the overlay draws.
pub const ICON_SIZE: u32 = 24;

#[verifier::external_type_specification]
#[verifier::external_body]
pub struct ExDynamicImage(image::DynamicImage);

/// Number of bytes of a square RGBA image of side `size`.
pub open spec fn rgba_len(size: u32) -> int {
    4 * size * size
}

/// A square RGBA image, 8 bits a channel, not premultiplied.
pub struct Bitmap {
    size: u32,
    pixels: Vec<u8>,
}

impl Bitmap {
    #[verifier::type_invariant]
    spec fn square(&self) -> bool {
        self.pixels@.len() == rgba_len(self.size)
    }

    pub closed spec fn side(&self) -> u32 {
        self.size
    }

    pub closed spec fn bytes(&self) -> Seq<u8> {
        self.pixels@
    }

    /// A bitmap of side `size` holding `pixels`, when there are exactly
    /// `size * size` of them.
    pub fn from_rgba(size: u32, pixels: Vec<u8>) -> (r: Option<Bitmap>)
        ensures
            r is Some <==> pixels@.len() == rgba_len(size),
            r matches Some(b) ==> b.side() == size && b.bytes() == pixels@,
    {
        let side = size as u128;
        assert(side * side <= 0xffff_ffff_ffff_ffff) by (nonlinear_arith)
            requires
                side <= 0xffff_ffff,
        ;
        assert(4 * (side * side) == rgba_len(size)) by (nonlinear_arith)
            requires
                side == size,
        ;
        if pixels.len() as u128 == 4 * (side * side) {
            Some(Bitmap { size, pixels })
        } else {
            None
        }
    }

    /// The side of the square, in pixels.
    pub fn size(&self) -> (r: u32)
        ensures
            r == self.side(),
    {
        self.size
    }

    /// The pixels, row by row, four bytes each.
    pub fn pixels(&self) -> (r: &[u8])
        ensures
            r@ == self.bytes(),
            r@.len() == rgba_len(self.side()),
    {
        proof {
            use_type_invariant(self);
        }
        self.pixels.as_slice()
    }
}

/// Whether `image::load_from_memory` decodes these bytes; it looks at the
/// bytes alone.
pub uninterp spec fn decodes(bytes: Seq<u8>) -> bool;

/// Relies on `image::load_from_memory`: decodes an image whose format it
/// recognises from its first bytes, or fails; the outcome depends on the
/// bytes alone.
#[verifier::external_body]
fn decode_image(bytes: &[u8]) -> (r: Option<image::DynamicImage>)
    ensures
        r is Some <==> decodes(bytes@),
{
    image::load_from_memory(bytes).ok()
}

/// Largest side for which a resampled image of any pixel type fits in memory
/// that `Vec` can address: 4 channels of at most 4 bytes a pixel.
pub open spec fn side_fits(size: u32) -> bool {
    4 * rgba_len(size) <= isize::MAX
}

/// Relies on `DynamicImage::resize_exact` with the Lanczos3 filter, then
/// `to_rgba8`: `imageops::resize` builds a fresh `size` by `size` buffer
/// (`ImageBuffer::new`, which panics only when its length overflows), so the
/// RGBA bytes number `4 * size * size`.
#[verifier::external_body]
fn resample_rgba(img: &image::DynamicImage, size: u32) -> (r: Vec<u8>)
    requires
        side_fits(size),
    ensures
        r@.len() == rgba_len(size),
{
    img.resize_exact(size, size, image::imageops::FilterType::Lanczos3).to_rgba8().into_raw()
}

/// A raster image file's bytes decoded and resampled to `size` by `size`,
/// whatever its own proportions; `None` exactly when they do not decode.
pub fn load_png(bytes: &[u8], size: u32) -> (r: Option<Bitmap>)
    requires
        side_fits(size),
    ensures
        r is Some <==> decodes(bytes@),
        r matches Some(b) ==> b.side() == size && b.bytes().len() == rgba_len(size),
{
    match decode_image(bytes) {
        Some(img) => {
            let pixels = resample_rgba(&img, size);
            Bitmap::from_rgba(size, pixels)
        },
        None => None,
    }
}

/// An icon file's bytes as an icon of the overlay's size; `None` exactly when
/// they do not decode.
pub fn load_icon(bytes: &[u8]) -> (r: Option<Bitmap>)
    ensures
        r is Some <==> decodes(bytes@),
        r matches Some(b) ==> b.side() == ICON_SIZE && b.bytes().len() == rgba_len(ICON_SIZE),
{
    load_png(bytes, ICON_SIZE)
}

/// How an icon file is drawn.
#[derive(PartialEq, Eq, Structural, Clone, Copy, Debug)]
pub enum IconFormat {
    Vector,
    Raster,
}

/// An icon file is drawn as a vector image when its path ends in `.svg`.
pub fn icon_format(path: &str) -> (r: IconFormat)
    ensures
        r == (if ends_with(path@, ".svg"@) {
            IconFormat::Vector
        } else {
            IconFormat::Raster
        }),
{
    let p = chars_of(path);
    let ext = chars_of(".svg");
    if ext.len() <= p.len() {
        let tail = crate::text::slice_of(p.as_slice(), p.len() - ext.len(), p.len());
        if has_prefix(tail.as_slice(), ext.as_slice()) {
            assert(tail@.take(ext@.len() as int) == tail@);
            return IconFormat::Vector;
        }
        assert(tail@.take(ext@.len() as int) == tail@);
    }
    IconFormat::Raster
}

} // verus!
