//! Packing of per-pixel escape-time counts into a grayscale RGBA8 image.

use vstd::prelude::*;
use crate::image::{EncodingError, PixelBuffer, lemma_grid_buffer_packageable};
use crate::layout::{buffer_len_spec, lemma_pixel_in_buffer, pixel_index, pixel_offset};

verus! {

/// Value of the alpha channel of every pixel: fully opaque.
pub const OPAQUE: u8 = 255;

/// The packed buffer of a row-major sequence of escape-time counts: pixel
/// `p` occupies bytes `4p .. 4p + 4`, the count three times and then
/// `OPAQUE`.
pub open spec fn packed(iterations: Seq<u8>) -> Seq<u8> {
    Seq::new(
        iterations.len() * 4,
        |i: int| if i % 4 == 3 { OPAQUE } else { iterations[i / 4] },
    )
}

/// The four bytes of one pixel.
pub open spec fn pixel_bytes(iteration: u8) -> Seq<u8> {
    seq![iteration, iteration, iteration, OPAQUE]
}

/// Byte `which` (0 red, 1 green, 2 blue, 3 alpha) of pixel `pixel`.
pub open spec fn channel(bytes: Seq<u8>, pixel: int, which: int) -> u8 {
    bytes[pixel * 4 + which]
}

/// Every pixel of `bytes` is opaque and has equal red, green and blue.
pub open spec fn is_gray_opaque(bytes: Seq<u8>) -> bool {
    &&& bytes.len() % 4 == 0
    &&& forall|p: int|
        0 <= p < bytes.len() / 4 ==> {
            &&& #[trigger] channel(bytes, p, 3) == OPAQUE
            &&& channel(bytes, p, 0) == channel(bytes, p, 1)
            &&& channel(bytes, p, 1) == channel(bytes, p, 2)
        }
}

/// Writes one pixel: `iteration` into red, green and blue, `OPAQUE` into
/// alpha. No other byte changes.
pub fn write_pixel(data: &mut Vec<u8>, index: usize, iteration: u8)
    requires
        index + 4 <= old(data)@.len(),
    ensures
        final(data)@ == old(data)@.update(index as int, iteration).update(
            index + 1,
            iteration,
        ).update(index + 2, iteration).update(index + 3, OPAQUE),
{
    let len: usize = data.len();
    assert(index + 4 <= len);
    data.set(index, iteration);
    data.set(index + 1, iteration);
    data.set(index + 2, iteration);
    data.set(index + 3, OPAQUE);
}

/// The pixel after the last one of a row is the first one of the next row.
proof fn lemma_row_end(y: u32, width: u32)
    requires
        y < u32::MAX,
    ensures
        pixel_offset(width, y, width) == pixel_offset(0, (y + 1) as u32, width),
{
    assert((y as nat) * (width as nat) + (width as nat) == ((y + 1) as nat) * (width as nat))
        by (nonlinear_arith);
}

/// The first pixel below the last row lies at the end of the buffer.
proof fn lemma_grid_end(width: u32, height: u32)
    ensures
        pixel_offset(0, height, width) == buffer_len_spec(width, height),
{
    assert((height as nat) * (width as nat) == (width as nat) * (height as nat))
        by (nonlinear_arith);
}

/// Fills the buffer of a `width` by `height` grid, row by row from the top
/// and left to right within a row.
pub fn pack_pixels(width: u32, height: u32, iterations: &Vec<u8>) -> (data: Vec<u8>)
    requires
        buffer_len_spec(width, height) <= usize::MAX,
        iterations@.len() == (width as nat) * (height as nat),
    ensures
        data@ == packed(iterations@),
{
    let len: usize = iterations.len() * 4;
    let mut data: Vec<u8> = vec![0u8; len];
    let mut y: u32 = 0;
    while y < height
        invariant
            y <= height,
            data@.len() == len,
            len == iterations@.len() * 4,
            iterations@.len() == (width as nat) * (height as nat),
            forall|i: int|
                0 <= i < pixel_offset(0, y, width) && i < len ==> data@[i] == packed(
                    iterations@,
                )[i],
        decreases height - y,
    {
        let mut x: u32 = 0;
        while x < width
            invariant
                y < height,
                x <= width,
                data@.len() == len,
                len == iterations@.len() * 4,
                iterations@.len() == (width as nat) * (height as nat),
                forall|i: int|
                    0 <= i < pixel_offset(x, y, width) && i < len ==> data@[i] == packed(
                        iterations@,
                    )[i],
            decreases width - x,
        {
            proof {
                lemma_pixel_in_buffer(x, y, width, height);
            }
            let index: usize = pixel_index(x, y, width);
            let iteration: u8 = iterations[index / 4];
            write_pixel(&mut data, index, iteration);
            x = x + 1;
        }
        proof {
            lemma_row_end(y, width);
        }
        y = y + 1;
    }
    proof {
        lemma_grid_end(width, height);
    }
    assert(data@ =~= packed(iterations@));
    data
}

/// A packed buffer holds four bytes for each count, and every pixel of it
/// is opaque and gray.
pub proof fn lemma_packed_gray_opaque(iterations: Seq<u8>)
    ensures
        packed(iterations).len() == iterations.len() * 4,
        is_gray_opaque(packed(iterations)),
{
    let bytes = packed(iterations);
    assert forall|p: int| 0 <= p < bytes.len() / 4 implies {
        &&& #[trigger] channel(bytes, p, 3) == OPAQUE
        &&& channel(bytes, p, 0) == channel(bytes, p, 1)
        &&& channel(bytes, p, 1) == channel(bytes, p, 2)
    } by {
        assert(channel(bytes, p, 0) == iterations[p]);
        assert(channel(bytes, p, 1) == iterations[p]);
        assert(channel(bytes, p, 2) == iterations[p]);
    }
}

/// In the packed buffer of a grid, the pixel in column `x` of row `y`
/// carries the count of that pixel in red, green and blue, and is opaque.
pub proof fn lemma_packed_pixel(iterations: Seq<u8>, x: u32, y: u32, width: u32, height: u32)
    requires
        x < width,
        y < height,
        iterations.len() == (width as nat) * (height as nat),
    ensures
        pixel_offset(x, y, width) + 4 <= packed(iterations).len(),
        packed(iterations).subrange(
            pixel_offset(x, y, width) as int,
            pixel_offset(x, y, width) as int + 4,
        ) == pixel_bytes(iterations[(y as int) * (width as int) + (x as int)]),
{
    lemma_pixel_in_buffer(x, y, width, height);
    assert(0 <= (y as int) * (width as int)) by (nonlinear_arith);
    let p = (y as int) * (width as int) + (x as int);
    let off = pixel_offset(x, y, width) as int;
    assert(off == p * 4);
    let slot = packed(iterations).subrange(off, off + 4);
    assert(slot[0] == iterations[p]);
    assert(slot[1] == iterations[p]);
    assert(slot[2] == iterations[p]);
    assert(slot[3] == OPAQUE);
    assert(slot =~= pixel_bytes(iterations[p]));
}

/// Packing is a function of the counts: equal counts give equal buffers,
/// byte for byte, and different counts give different buffers.
pub proof fn lemma_packed_deterministic(first: Seq<u8>, second: Seq<u8>)
    ensures
        first == second <==> packed(first) == packed(second),
{
    if packed(first) == packed(second) {
        assert(first.len() * 4 == packed(first).len());
        assert(second.len() * 4 == packed(second).len());
        assert forall|p: int| 0 <= p < first.len() implies first[p] == second[p] by {
            assert(packed(first)[p * 4] == first[p]);
            assert(packed(second)[p * 4] == second[p]);
        }
        assert(first =~= second);
    }
}

/// A grid without columns or without rows has no counts and an empty
/// buffer.
pub proof fn lemma_degenerate_grid_is_empty(width: u32, height: u32, iterations: Seq<u8>)
    requires
        width == 0 || height == 0,
        iterations.len() == (width as nat) * (height as nat),
    ensures
        iterations.len() == 0,
        buffer_len_spec(width, height) == 0,
        packed(iterations) == Seq::<u8>::empty(),
{
    assert((width as nat) * (height as nat) == 0) by (nonlinear_arith)
        requires
            width == 0 || height == 0,
    ;
    assert(packed(iterations) =~= Seq::<u8>::empty());
}

/// Renders a `width` by `height` grid from the escape-time count of each
/// pixel, given row by row from the top and left to right within a row, and
/// wraps the buffer into an image of that width.
///
/// Fails where the number of counts is not that of the grid's pixels. A grid
/// without columns or rows gives an empty image.
pub fn render_mandelbrot(width: u32, height: u32, iterations: &Vec<u8>) -> (result: Result<
    PixelBuffer,
    EncodingError,
>)
    requires
        buffer_len_spec(width, height) <= usize::MAX,
    ensures
        iterations@.len() == (width as nat) * (height as nat) ==> {
            &&& result is Ok
            &&& result->Ok_0@ == packed(iterations@)
            &&& result->Ok_0@.len() == buffer_len_spec(width, height)
            &&& is_gray_opaque(result->Ok_0@)
            &&& result->Ok_0.grid_width() == width
            &&& result->Ok_0.grid_height() == (if width == 0 {
                0
            } else {
                height
            })
        },
        iterations@.len() != (width as nat) * (height as nat) ==> result == Err::<
            PixelBuffer,
            EncodingError,
        >(EncodingError::LengthMismatch),
{
    assert((width as nat) * (height as nat) <= buffer_len_spec(width, height));
    let pixels: usize = width as usize * height as usize;
    if iterations.len() != pixels {
        return Err(EncodingError::LengthMismatch);
    }
    let data: Vec<u8> = pack_pixels(width, height, iterations);
    proof {
        lemma_packed_gray_opaque(iterations@);
        lemma_grid_buffer_packageable(width, height);
    }
    PixelBuffer::new(data, width)
}

} // verus!
