//! A test card: a colour gradient written straight into a pixel buffer.

use vstd::prelude::*;

verus! {

/// Image dimensions in pixels.
pub struct RenderInfo {
    pub img_width: usize,
    pub img_height: usize,
}

/// The blue level of every pixel of the gradient: a quarter of full scale.
pub const BLUE: u8 = 63;

/// The level, out of 255.999 and rounded down, of position `position` on a
/// ramp that ends at position `last`.  A ramp of one position has level 0.
pub open spec fn ramp(position: int, last: int) -> int {
    if last <= 0 {
        0
    } else {
        (255999 * position) / (1000 * last)
    }
}

/// The index in the buffer of the red byte of the pixel in column `i` of row `j`.
pub open spec fn pixel_index(width: int, i: int, j: int) -> int {
    3 * (j * width + i)
}

proof fn lemma_ramp_bounds(position: int, last: int)
    requires
        0 <= position <= last,
    ensures
        0 <= ramp(position, last) <= 255,
{
    if last > 0 {
        assert(255999 * position <= 255999 * last);
        assert(0 <= (255999 * position) / (1000 * last) <= 255) by (nonlinear_arith)
            requires
                0 <= 255999 * position <= 255999 * last,
                last > 0,
        ;
    }
}

fn ramp_level(position: usize, last: usize) -> (r: u8)
    requires
        position <= last,
    ensures
        r == ramp(position as int, last as int),
{
    if last == 0 {
        0
    } else {
        proof {
            lemma_ramp_bounds(position as int, last as int);
        }
        let scaled: u128 = 255999 * (position as u128);
        let span: u128 = 1000 * (last as u128);
        (scaled / span) as u8
    }
}

proof fn lemma_pixel_in_buffer(width: int, height: int, i: int, j: int)
    requires
        0 <= i < width,
        0 <= j < height - 1,
    ensures
        0 <= pixel_index(width, i, j),
        pixel_index(width, i, j) + 3 <= 3 * width * (height - 1),
        j * width + i < width * (height - 1),
{
    assert(j * width + i < width * (height - 1)) by (nonlinear_arith)
        requires
            0 <= i < width,
            0 <= j < height - 1,
    ;
    assert(0 <= j * width) by (nonlinear_arith)
        requires
            0 <= j,
            0 <= width,
    ;
    assert(3 * (width * (height - 1)) == 3 * width * (height - 1)) by (nonlinear_arith);
}

/// Fills every row but the last with the gradient: red grows with the
/// column, green with the row, blue is constant.
///
/// Row `j` starts at byte `3 * j * img_width`.  The last row and whatever
/// lies behind it in the buffer are left as they were.
pub fn render(info: &RenderInfo, pixels: &mut [u8])
    requires
        info.img_height >= 1,
        3 * info.img_width * (info.img_height - 1) <= old(pixels).len(),
    ensures
        final(pixels).len() == old(pixels).len(),
        forall|i: int, j: int|
            0 <= i < info.img_width && 0 <= j < info.img_height - 1 ==> {
                let at = #[trigger] pixel_index(info.img_width as int, i, j);
                &&& final(pixels)[at] == ramp(i, info.img_width - 1)
                &&& final(pixels)[at + 1] == ramp(j, info.img_height - 1)
                &&& final(pixels)[at + 2] == BLUE
            },
        forall|k: int|
            3 * info.img_width * (info.img_height - 1) <= k < old(pixels).len()
                ==> final(pixels)[k] == old(pixels)[k],
{
    let img_width = info.img_width;
    let img_height = info.img_height;
    let ghost w = img_width as int;
    let ghost h = img_height as int;
    let mut j: usize = img_height - 1;
    while j > 0
        invariant
            j <= img_height - 1,
            w == img_width,
            h == img_height,
            h >= 1,
            3 * w * (h - 1) <= pixels.len(),
            pixels.len() == old(pixels).len(),
            forall|i: int, row: int|
                0 <= i < w && j <= row < h - 1 ==> {
                    let at = #[trigger] pixel_index(w, i, row);
                    &&& pixels[at] == ramp(i, w - 1)
                    &&& pixels[at + 1] == ramp(row, h - 1)
                    &&& pixels[at + 2] == BLUE
                },
            forall|k: int| 3 * w * (h - 1) <= k < pixels.len() ==> pixels[k] == old(pixels)[k],
        decreases j,
    {
        j -= 1;
        let mut i: usize = 0;
        while i < img_width
            invariant
                i <= img_width,
                j < img_height - 1,
                w == img_width,
                h == img_height,
                3 * w * (h - 1) <= pixels.len(),
                pixels.len() == old(pixels).len(),
                forall|col: int, row: int|
                    0 <= col < w && j < row < h - 1 ==> {
                        let at = #[trigger] pixel_index(w, col, row);
                        &&& pixels[at] == ramp(col, w - 1)
                        &&& pixels[at + 1] == ramp(row, h - 1)
                        &&& pixels[at + 2] == BLUE
                    },
                forall|col: int|
                    0 <= col < i ==> {
                        let at = #[trigger] pixel_index(w, col, j as int);
                        &&& pixels[at] == ramp(col, w - 1)
                        &&& pixels[at + 1] == ramp(j as int, h - 1)
                        &&& pixels[at + 2] == BLUE
                    },
                forall|k: int| 3 * w * (h - 1) <= k < pixels.len() ==> pixels[k] == old(pixels)[k],
            decreases img_width - i,
        {
            let ir = ramp_level(i, img_width - 1);
            let ig = ramp_level(j, img_height - 1);
            proof {
                lemma_pixel_in_buffer(w, h, i as int, j as int);
            }
            let pix_idx = 3 * (j * img_width + i);
            let ghost before = pixels@;
            pixels[pix_idx] = ir;
            pixels[pix_idx + 1] = ig;
            pixels[pix_idx + 2] = BLUE;
            proof {
                assert forall|col: int, row: int| 0 <= col < w && j < row < h - 1 implies {
                    let at = #[trigger] pixel_index(w, col, row);
                    &&& pixels[at] == ramp(col, w - 1)
                    &&& pixels[at + 1] == ramp(row, h - 1)
                    &&& pixels[at + 2] == BLUE
                } by {
                    lemma_pixels_apart(w, col, row, i as int, j as int);
                    lemma_pixel_in_buffer(w, h, col, row);
                    let at = pixel_index(w, col, row);
                    assert(before[at] == ramp(col, w - 1));
                }
                assert forall|col: int| 0 <= col < i + 1 implies {
                    let at = #[trigger] pixel_index(w, col, j as int);
                    &&& pixels[at] == ramp(col, w - 1)
                    &&& pixels[at + 1] == ramp(j as int, h - 1)
                    &&& pixels[at + 2] == BLUE
                } by {
                    if col < i {
                        lemma_pixels_apart(w, col, j as int, i as int, j as int);
                        lemma_pixel_in_buffer(w, h, col, j as int);
                        let at = pixel_index(w, col, j as int);
                        assert(before[at] == ramp(col, w - 1));
                    }
                }
            }
            i += 1;
        }
    }
}

/// Two different pixels of an image do not share a byte.
proof fn lemma_pixels_apart(width: int, i1: int, j1: int, i2: int, j2: int)
    requires
        0 <= i1 < width,
        0 <= i2 < width,
        0 <= j1,
        0 <= j2,
        i1 != i2 || j1 != j2,
    ensures
        pixel_index(width, i1, j1) + 3 <= pixel_index(width, i2, j2) || pixel_index(width, i2, j2)
            + 3 <= pixel_index(width, i1, j1),
{
    if j1 < j2 {
        assert(j1 * width + width <= j2 * width) by (nonlinear_arith)
            requires
                j1 + 1 <= j2,
                width > 0,
        ;
    } else if j2 < j1 {
        assert(j2 * width + width <= j1 * width) by (nonlinear_arith)
            requires
                j2 + 1 <= j1,
                width > 0,
        ;
    }
}

} // verus!
