//! Geometry of a packed RGBA8 pixel buffer: row-major, top-left origin,
//! four bytes per pixel.

use vstd::prelude::*;
use vstd::arithmetic::div_mod::{lemma_fundamental_div_mod, lemma_mod_pos_bound};

verus! {

/// Bytes per pixel: red, green, blue, alpha.
pub const CHANNELS: usize = 4;

/// Number of bytes in the buffer of a `width` by `height` grid.
pub open spec fn buffer_len_spec(width: u32, height: u32) -> nat {
    (width as nat) * (height as nat) * 4
}

/// Offset of the first byte (red) of pixel `(x, y)` in a grid `width` wide.
pub open spec fn pixel_offset(x: u32, y: u32, width: u32) -> nat {
    ((y as nat) * (width as nat) + (x as nat)) * 4
}

/// Every pixel of the grid has its four bytes inside the buffer.
pub proof fn lemma_pixel_in_buffer(x: u32, y: u32, width: u32, height: u32)
    requires
        x < width,
        y < height,
    ensures
        (y as nat) * (width as nat) + (x as nat) < (width as nat) * (height as nat),
        pixel_offset(x, y, width) + 4 <= buffer_len_spec(width, height),
{
    let w = width as int;
    let h = height as int;
    let xi = x as int;
    let yi = y as int;
    assert(yi * w + xi < w * h) by (nonlinear_arith)
        requires
            0 <= xi < w,
            0 <= yi < h,
    {
        assert(yi * w + w == (yi + 1) * w);
        assert((yi + 1) * w <= h * w);
    }
}

/// Length of the buffer of a `width` by `height` grid, or `None` where that
/// many bytes cannot be addressed on this machine.
pub fn buffer_len(width: u32, height: u32) -> (len: Option<usize>)
    ensures
        len == (if buffer_len_spec(width, height) <= usize::MAX {
            Some(buffer_len_spec(width, height) as usize)
        } else {
            None
        }),
{
    assert((width as nat) * (height as nat) <= 0xffff_ffff * 0xffff_ffff) by (nonlinear_arith)
        requires
            width <= 0xffff_ffff,
            height <= 0xffff_ffff,
    ;
    let pixels: u64 = (width as u64) * (height as u64);
    let bytes: u128 = (pixels as u128) * 4;
    if bytes <= usize::MAX as u128 {
        Some(bytes as usize)
    } else {
        None
    }
}

/// Index of the first byte (red) of pixel `(x, y)` in a grid `width` wide.
pub fn pixel_index(x: u32, y: u32, width: u32) -> (index: usize)
    requires
        pixel_offset(x, y, width) <= usize::MAX,
    ensures
        index == pixel_offset(x, y, width),
{
    assert((y as nat) * (width as nat) <= pixel_offset(x, y, width)) by (nonlinear_arith)
        requires
            pixel_offset(x, y, width) == ((y as nat) * (width as nat) + (x as nat)) * 4,
    ;
    (y as usize * width as usize + x as usize) * CHANNELS
}

/// Two pixels of a grid that share a byte are the same pixel: every byte
/// of the buffer belongs to one pixel only.
pub proof fn lemma_pixels_disjoint(x1: u32, y1: u32, x2: u32, y2: u32, width: u32)
    requires
        x1 < width,
        x2 < width,
        pixel_offset(x1, y1, width) < pixel_offset(x2, y2, width) + 4,
        pixel_offset(x2, y2, width) < pixel_offset(x1, y1, width) + 4,
    ensures
        x1 == x2,
        y1 == y2,
{
    let w = width as int;
    let a = y1 as int;
    let b = y2 as int;
    assert(a * w + x1 == b * w + x2);
    assert(a == b) by (nonlinear_arith)
        requires
            a * w + x1 == b * w + x2,
            0 <= x1 < w,
            0 <= x2 < w,
    {
        if a < b {
            assert(b * w >= (a + 1) * w);
            assert((a + 1) * w == a * w + w);
        }
        if b < a {
            assert(a * w >= (b + 1) * w);
            assert((b + 1) * w == b * w + w);
        }
    }
}

/// Column of the pixel that byte `i` of a buffer belongs to.
pub open spec fn pixel_column(i: nat, width: u32) -> nat {
    ((i / 4) % (width as nat)) as nat
}

/// Row of the pixel that byte `i` of a buffer belongs to.
pub open spec fn pixel_row(i: nat, width: u32) -> nat {
    (i / 4) / (width as nat)
}

/// Every byte of the buffer belongs to a pixel of the grid: none is left
/// unwritten once every pixel is.
pub proof fn lemma_byte_has_pixel(i: nat, width: u32, height: u32)
    requires
        i < buffer_len_spec(width, height),
    ensures
        pixel_column(i, width) < width,
        pixel_row(i, width) < height,
        pixel_offset(pixel_column(i, width) as u32, pixel_row(i, width) as u32, width) <= i,
        i < pixel_offset(pixel_column(i, width) as u32, pixel_row(i, width) as u32, width) + 4,
{
    let w = width as int;
    let h = height as int;
    let p = (i / 4) as int;
    assert(w > 0) by (nonlinear_arith)
        requires
            i < w * h * 4,
            0 <= h,
            0 <= w,
    ;
    assert(p < w * h);
    lemma_fundamental_div_mod(p, w);
    lemma_mod_pos_bound(p, w);
    let x = p % w;
    let y = p / w;
    assert(0 <= y < h) by (nonlinear_arith)
        requires
            p == w * y + x,
            0 <= x < w,
            0 <= p < w * h,
    ;
    assert(y * w + x == p) by (nonlinear_arith)
        requires
            p == w * y + x,
    ;
}

/// The buffer of every grid of up to 32767 pixels a side, and so of every
/// grid of up to 10000 by 10000, has a length that this machine can
/// address.
pub proof fn lemma_moderate_grid_fits(width: u32, height: u32)
    requires
        width <= 32767,
        height <= 32767,
    ensures
        buffer_len_spec(width, height) <= 0xffff_ffff,
        buffer_len_spec(width, height) <= usize::MAX,
{
    assert((width as nat) * (height as nat) * 4 <= 32767 * 32767 * 4) by (nonlinear_arith)
        requires
            width <= 32767,
            height <= 32767,
    ;
}

} // verus!
