//! The image a pixel buffer is wrapped into: the bytes, tagged with the
//! width of a row, the number of rows following from the two.

use vstd::prelude::*;
use vstd::arithmetic::div_mod::{lemma_fundamental_div_mod, lemma_fundamental_div_mod_converse};
use crate::layout::buffer_len_spec;

verus! {

/// Why a buffer could not be wrapped into an image.
#[derive(Debug, Clone, Copy, PartialEq, Eq, Structural)]
pub enum EncodingError {
    /// The number of bytes or of counts does not fit the grid.
    LengthMismatch,
}

/// Bytes in one row of an image `width` pixels wide.
pub open spec fn stride(width: u32) -> nat {
    (width as nat) * 4
}

/// Whether `len` bytes make up whole rows of `width` pixels, and no more
/// rows than a height can count. Without columns only the empty buffer does.
pub open spec fn packageable(len: nat, width: u32) -> bool {
    if width == 0 {
        len == 0
    } else {
        len % stride(width) == 0 && len / stride(width) <= u32::MAX
    }
}

/// Number of rows that `len` bytes make at `width` pixels a row.
pub open spec fn implied_height(len: nat, width: u32) -> nat {
    if width == 0 {
        0
    } else {
        len / stride(width)
    }
}

/// The buffer of a `width` by `height` grid can always be wrapped, and its
/// rows are the grid's rows.
pub proof fn lemma_grid_buffer_packageable(width: u32, height: u32)
    ensures
        packageable(buffer_len_spec(width, height), width),
        width > 0 ==> implied_height(buffer_len_spec(width, height), width) == height,
        width == 0 ==> buffer_len_spec(width, height) == 0,
{
    if width > 0 {
        let len = buffer_len_spec(width, height) as int;
        let row = stride(width) as int;
        assert(len == (height as int) * row + 0) by (nonlinear_arith)
            requires
                len == (width as int) * (height as int) * 4,
                row == (width as int) * 4,
        ;
        lemma_fundamental_div_mod_converse(len, row, height as int, 0);
    } else {
        assert((width as nat) * (height as nat) * 4 == 0) by (nonlinear_arith)
            requires
                width == 0,
        ;
    }
}

/// A packed RGBA8 image: row-major, top-left origin, four bytes a pixel.
pub struct PixelBuffer {
    width: u32,
    height: u32,
    data: Vec<u8>,
}

impl View for PixelBuffer {
    type V = Seq<u8>;

    /// The bytes of the image.
    closed spec fn view(&self) -> Seq<u8> {
        self.data@
    }
}

impl PixelBuffer {
    #[verifier::type_invariant]
    spec fn well_formed(self) -> bool {
        self.data@.len() == buffer_len_spec(self.width, self.height)
    }

    /// Pixels in a row.
    pub closed spec fn grid_width(&self) -> u32 {
        self.width
    }

    /// Number of rows.
    pub closed spec fn grid_height(&self) -> u32 {
        self.height
    }

    /// Wraps `data` into an image `width` pixels wide. The height is the
    /// number of whole rows the bytes make; bytes that make no whole number
    /// of rows are refused.
    pub fn new(data: Vec<u8>, width: u32) -> (result: Result<PixelBuffer, EncodingError>)
        ensures
            packageable(data@.len(), width) ==> {
                &&& result is Ok
                &&& result->Ok_0@ == data@
                &&& result->Ok_0.grid_width() == width
                &&& result->Ok_0.grid_height() == implied_height(data@.len(), width)
            },
            !packageable(data@.len(), width) ==> result == Err::<PixelBuffer, EncodingError>(
                EncodingError::LengthMismatch,
            ),
    {
        let len: u64 = data.len() as u64;
        if width == 0 {
            if len == 0 {
                assert(buffer_len_spec(0, 0) == 0);
                return Ok(PixelBuffer { width: 0, height: 0, data });
            }
            return Err(EncodingError::LengthMismatch);
        }
        let row: u64 = width as u64 * 4;
        if len % row != 0 {
            return Err(EncodingError::LengthMismatch);
        }
        let rows: u64 = len / row;
        if rows > u32::MAX as u64 {
            return Err(EncodingError::LengthMismatch);
        }
        let height: u32 = rows as u32;
        proof {
            lemma_fundamental_div_mod(len as int, row as int);
            assert(buffer_len_spec(width, height) == len) by (nonlinear_arith)
                requires
                    len == row * (len / row),
                    height == len / row,
                    row == width * 4,
            ;
        }
        Ok(PixelBuffer { width, height, data })
    }

    /// Pixels in a row.
    pub fn width(&self) -> (width: u32)
        ensures
            width == self.grid_width(),
    {
        self.width
    }

    /// Number of rows.
    pub fn height(&self) -> (height: u32)
        ensures
            height == self.grid_height(),
    {
        self.height
    }

    /// The bytes of the image, `width * height * 4` of them.
    pub fn data(&self) -> (data: &Vec<u8>)
        ensures
            data@ == self@,
            data@.len() == buffer_len_spec(self.grid_width(), self.grid_height()),
    {
        proof {
            use_type_invariant(self);
        }
        &self.data
    }

    /// Gives the bytes up.
    pub fn into_data(self) -> (data: Vec<u8>)
        ensures
            data@ == self@,
            data@.len() == buffer_len_spec(self.grid_width(), self.grid_height()),
    {
        proof {
            use_type_invariant(&self);
        }
        self.data
    }
}

} // verus!
