use image::{Rgba, RgbaImage};
use vstd::prelude::*;

use crate::color::Color;

verus! {

/// A `width` by `height` grid of RGBA pixels, kept in an `image::RgbaImage`.
#[verifier::external_body]
pub struct FrameBuffer {
    img: RgbaImage,
}

/// The pixels of a buffer, row-major, each as its four channels.
pub uninterp spec fn frame_pixels(buf: FrameBuffer) -> Seq<(u8, u8, u8, u8)>;

/// The width and height a buffer was made with.
pub uninterp spec fn frame_size(buf: FrameBuffer) -> (u32, u32);

impl FrameBuffer {
    /// Relies on `ImageBuffer::new`: a `width` by `height` image whose
    /// channels are all zero. It panics where `4 * width * height` overflows
    /// `usize`.
    #[verifier::external_body]
    pub(crate) fn new(width: u32, height: u32) -> (buf: FrameBuffer)
        requires
            4 * (width as int) * (height as int) <= usize::MAX,
        ensures
            frame_size(buf) == (width, height),
            frame_pixels(buf) == Seq::new(
                (width as nat) * (height as nat),
                |k: int| (0u8, 0u8, 0u8, 0u8),
            ),
    {
        FrameBuffer { img: RgbaImage::new(width, height) }
    }

    /// Relies on `ImageBuffer::put_pixel`: sets the pixel at column `x` of
    /// row `y`, which is entry `y * width + x` of the row-major pixels, and
    /// nothing else. It panics outside the image.
    #[verifier::external_body]
    pub(crate) fn put(&mut self, x: u32, y: u32, c: Color)
        requires
            x < frame_size(*old(self)).0,
            y < frame_size(*old(self)).1,
        ensures
            frame_size(*final(self)) == frame_size(*old(self)),
            frame_pixels(*final(self)) == frame_pixels(*old(self)).update(
                y * frame_size(*old(self)).0 + x,
                c.channels(),
            ),
    {
        self.img.put_pixel(x, y, Rgba([c.r, c.g, c.b, c.a]));
    }

    /// Relies on `ImageBuffer::get_pixel`: the pixel at column `x` of row
    /// `y`. It panics outside the image.
    #[verifier::external_body]
    pub(crate) fn get(&self, x: u32, y: u32) -> (c: Color)
        requires
            x < frame_size(*self).0,
            y < frame_size(*self).1,
        ensures
            c.channels() == frame_pixels(*self)[y * frame_size(*self).0 + x],
    {
        let p = self.img.get_pixel(x, y);
        Color { r: p.0[0], g: p.0[1], b: p.0[2], a: p.0[3] }
    }

    /// Relies on `ImageBuffer::as_raw`: the channels of the pixels, four
    /// bytes per pixel in the order red, green, blue, alpha, row-major.
    #[verifier::external_body]
    pub(crate) fn to_bytes(&self) -> (r: Vec<u8>)
        ensures
            r@.len() == 4 * frame_pixels(*self).len(),
            forall|k: int|
                0 <= k < frame_pixels(*self).len() ==> {
                    &&& r@[4 * k] == (#[trigger] frame_pixels(*self)[k]).0
                    &&& r@[4 * k + 1] == frame_pixels(*self)[k].1
                    &&& r@[4 * k + 2] == frame_pixels(*self)[k].2
                    &&& r@[4 * k + 3] == frame_pixels(*self)[k].3
                },
    {
        self.img.as_raw().clone()
    }
}

} // verus!
