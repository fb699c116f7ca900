//! Trusted boundary to the `image` crate.
//!
//! Input layers and the baked lightmap are RGBA rasters backed by
//! `image::RgbaImage`.  That type's `Pixel` trait bound keeps the verifier
//! from seeing it directly, so it is held in the opaque [`Texture`] wrapper;
//! the uninterpreted functions below model the raster, and each wrapper
//! function states exactly what the `image` call it makes does to that model.

use vstd::prelude::*;

verus! {

/// An RGBA raster image.  Opaque to the verifier; the `image` field is
/// public so that unverified callers can move rasters in and out.
#[verifier::external_body]
pub struct Texture {
    pub image: image::RgbaImage,
}

/// The pixel grid of a texture: what RGBA quadruple each coordinate holds.
pub uninterp spec fn texture_pixels(t: Texture) -> Map<(u32, u32), (u8, u8, u8, u8)>;

/// The width the texture was created with.
pub uninterp spec fn texture_width(t: Texture) -> u32;

/// The height the texture was created with.
pub uninterp spec fn texture_height(t: Texture) -> u32;

impl Texture {
    /// Relies on `image::ImageBuffer::new`, which allocates a buffer of
    /// `width * height` RGBA pixels with every subpixel zero.
    #[verifier::external_body]
    pub fn new(width: u32, height: u32) -> (t: Texture)
        requires
            width * height * 4 <= usize::MAX,
        ensures
            texture_width(t) == width,
            texture_height(t) == height,
            forall|x: u32, y: u32|
                x < width && y < height ==> texture_pixels(t)[(x, y)] == (0u8, 0u8, 0u8, 0u8),
    {
        Texture { image: image::RgbaImage::new(width, height) }
    }

    /// Relies on `image::ImageBuffer::put_pixel`, which overwrites the pixel
    /// at `(x, y)` and panics outside the image bounds.
    #[verifier::external_body]
    pub(crate) fn put_pixel(&mut self, x: u32, y: u32, px: (u8, u8, u8, u8))
        requires
            x < texture_width(*old(self)),
            y < texture_height(*old(self)),
        ensures
            texture_width(*final(self)) == texture_width(*old(self)),
            texture_height(*final(self)) == texture_height(*old(self)),
            texture_pixels(*final(self)) == texture_pixels(*old(self)).insert((x, y), px),
    {
        self.image.put_pixel(x, y, image::Rgba([px.0, px.1, px.2, px.3]));
    }

    /// Relies on `image::ImageBuffer::get_pixel`, which returns the pixel at
    /// `(x, y)` and panics outside the image bounds.
    #[verifier::external_body]
    pub fn get_pixel(&self, x: u32, y: u32) -> (px: (u8, u8, u8, u8))
        requires
            x < texture_width(*self),
            y < texture_height(*self),
        ensures
            px == texture_pixels(*self)[(x, y)],
    {
        let p = self.image.get_pixel(x, y);
        (p.0[0], p.0[1], p.0[2], p.0[3])
    }

    /// Relies on `image::ImageBuffer::width`, which returns the width the
    /// buffer was created with.
    #[verifier::external_body]
    pub fn width(&self) -> (w: u32)
        ensures
            w == texture_width(*self),
    {
        self.image.width()
    }

    /// Relies on `image::ImageBuffer::height`, which returns the height the
    /// buffer was created with.
    #[verifier::external_body]
    pub fn height(&self) -> (h: u32)
        ensures
            h == texture_height(*self),
    {
        self.image.height()
    }
}

} // verus!
