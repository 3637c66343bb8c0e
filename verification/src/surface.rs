//! The frame that is painted: a display buffer made ready for a drawing
//! surface of four bytes per pixel.

use crate::pixel::pixel_count;
use vstd::prelude::*;

verus! {

/// What to paint: the surface is resized to `width` by `height` and the
/// frame is put at its origin.
#[derive(Clone, Debug)]
pub struct SurfaceImage {
    pub width: u32,
    pub height: u32,
    /// Four bytes per pixel: red, green, blue and an alpha of 255.
    pub rgba: Vec<u8>,
}

/// The frame of a display buffer: each pixel's three bytes followed by an
/// alpha of 255. Bytes behind the last whole pixel are left out.
pub open spec fn rgba_of(display: Seq<u8>) -> Seq<u8> {
    Seq::new(
        4 * (display.len() / 3),
        |i: int|
            if i % 4 == 3 {
                255u8
            } else {
                display[3 * (i / 4) + i % 4]
            },
    )
}

/// Makes a display buffer ready for painting on a surface of `width` by
/// `height`: every pixel is given an alpha of 255. A buffer of exactly
/// `width * height * 3` bytes gives a frame of exactly `width * height * 4`.
pub fn render_dicom_image(data: &[u8], width: u32, height: u32) -> (image: SurfaceImage)
    ensures
        image.width == width,
        image.height == height,
        image.rgba@ == rgba_of(data@),
        data@.len() == 3 * pixel_count(height, width) ==> image.rgba@.len() == 4 * pixel_count(
            height,
            width,
        ),
{
    let pixels: usize = data.len() / 3;
    let mut rgba: Vec<u8> = Vec::new();
    let mut i: usize = 0;
    while i < pixels
        invariant
            i <= pixels,
            pixels == data@.len() / 3,
            data@.len() <= usize::MAX,
            rgba@.len() == 4 * i,
            forall|k: int| 0 <= k < 4 * i ==> rgba@[k] == rgba_of(data@)[k],
        decreases pixels - i,
    {
        rgba.push(data[3 * i]);
        rgba.push(data[3 * i + 1]);
        rgba.push(data[3 * i + 2]);
        rgba.push(255);
        i = i + 1;
    }
    SurfaceImage { width, height, rgba }
}

} // verus!
