use vstd::prelude::*;
use vstd::arithmetic::div_mod::lemma_fundamental_div_mod_converse;
use crate::scene::Image;

verus! {

/// How far the band of rendered rows is shifted from the image's first row.
pub open spec fn row_offset(image: Image) -> int {
    match image.slice {
        Some(s) => image.height - s.top,
        None => 0,
    }
}

/// The pixel coordinates that a render can enumerate without overflow: a band
/// starts inside the image and its last row index fits in a `u32`.
pub open spec fn renderable(image: Image) -> bool {
    &&& match image.slice {
        Some(s) => s.top <= image.height,
        None => true,
    }
    &&& row_offset(image) + image.rows() <= u32::MAX + 1
}

/// The `k`-th pixel of a render: rows run from the band's last row index down
/// to its first (screen order, top first), each row from left to right.
pub open spec fn pixel_location(image: Image, k: int) -> (u32, u32) {
    let w = image.width as int;
    ((k % w) as u32, (row_offset(image) + image.rows() - 1 - k / w) as u32)
}

/// Every pixel of the image (or of its band), in the order in which the
/// rendered pixels are delivered.
pub fn get_pixels_to_render(image: &Image) -> (r: Vec<(u32, u32)>)
    requires
        renderable(*image),
    ensures
        r@.len() == image.pixel_count(),
        forall|k: int| 0 <= k < r@.len() ==> #[trigger] r@[k] == pixel_location(*image, k),
{
    let (top, height) = match &image.slice {
        Some(slice) => (image.height - slice.top, slice.height),
        None => (0u32, image.height),
    };
    let width = image.width();
    let ghost w = width as int;
    let mut pixels: Vec<(u32, u32)> = Vec::new();
    let mut j: u32 = 0;
    while j < height
        invariant
            renderable(*image),
            width == image.width,
            w == width as int,
            height == image.rows(),
            top == row_offset(*image),
            j <= height,
            pixels@.len() == j * w,
            forall|k: int| 0 <= k < pixels@.len() ==> #[trigger] pixels@[k] == pixel_location(*image, k),
        decreases height - j,
    {
        let row = height - 1 - j + top;
        let mut i: u32 = 0;
        while i < width
            invariant
                renderable(*image),
                width == image.width,
                w == width as int,
            w == width as int,
                height == image.rows(),
                top == row_offset(*image),
                j < height,
                i <= width,
                row == row_offset(*image) + image.rows() - 1 - j,
                pixels@.len() == j * w + i,
                forall|k: int| 0 <= k < pixels@.len() ==> #[trigger] pixels@[k] == pixel_location(*image, k),
            decreases width - i,
        {
            proof {
                lemma_fundamental_div_mod_converse(j * w + i, w, j as int, i as int);
            }
            pixels.push((i, row));
            i += 1;
        }
        proof {
            assert((j + 1) * w == j * w + w) by (nonlinear_arith);
        }
        j += 1;
    }
    proof {
        assert(j * w == w * image.rows()) by (nonlinear_arith)
            requires
                j == image.rows(),
        ;
    }
    pixels
}

/// The pixels as RGBA bytes, four per pixel, with an opaque alpha.
pub fn rgba_bytes(pixels: &Vec<(u8, u8, u8)>) -> (r: Vec<u8>)
    ensures
        r@.len() == 4 * pixels@.len(),
        forall|k: int|
            0 <= k < pixels@.len() ==> {
                &&& r@[4 * k] == (#[trigger] pixels@[k]).0
                &&& r@[4 * k + 1] == pixels@[k].1
                &&& r@[4 * k + 2] == pixels@[k].2
                &&& r@[4 * k + 3] == 255
            },
{
    let mut data: Vec<u8> = Vec::new();
    let mut i: usize = 0;
    while i < pixels.len()
        invariant
            i <= pixels@.len(),
            data@.len() == 4 * i,
            forall|k: int|
                0 <= k < i ==> {
                    &&& data@[4 * k] == (#[trigger] pixels@[k]).0
                    &&& data@[4 * k + 1] == pixels@[k].1
                    &&& data@[4 * k + 2] == pixels@[k].2
                    &&& data@[4 * k + 3] == 255
                },
        decreases pixels@.len() - i,
    {
        let pixel = pixels[i];
        data.push(pixel.0);
        data.push(pixel.1);
        data.push(pixel.2);
        data.push(255);
        i += 1;
    }
    data
}

} // verus!
