//! The layout of a pixel buffer: row-major, four interleaved channels per
//! pixel (red, green, blue, alpha), `width * height * 4` bytes in all.

use vstd::prelude::*;
use vstd::arithmetic::div_mod::lemma_fundamental_div_mod_converse;
use vstd::arithmetic::div_mod::lemma_fundamental_div_mod;
use vstd::arithmetic::div_mod::lemma_mod_bound;
use vstd::arithmetic::mul::lemma_mul_inequality;
use vstd::arithmetic::mul::lemma_mul_is_distributive_add_other_way;

verus! {

/// Number of channels of one pixel.
pub const CHANNELS: usize = 4;

/// Length in bytes of a buffer that holds `width` by `height` pixels.
pub open spec fn buffer_len(width: int, height: int) -> int {
    width * height * 4
}

/// Position in the buffer of channel `channel` of the pixel at `(row, col)`.
pub open spec fn position(width: int, row: int, col: int, channel: int) -> int {
    (row * width + col) * 4 + channel
}

/// Whether `(row, col)` names a pixel of a `width` by `height` image.
pub open spec fn in_image(width: int, height: int, row: int, col: int) -> bool {
    0 <= row < height && 0 <= col < width
}

/// Row of the pixel that the byte at `index` belongs to.
pub open spec fn row_of(width: int, index: int) -> int {
    (index / 4) / width
}

/// Column of the pixel that the byte at `index` belongs to.
pub open spec fn col_of(width: int, index: int) -> int {
    (index / 4) % width
}

/// Channel that the byte at `index` holds.
pub open spec fn channel_of(index: int) -> int {
    index % 4
}

/// Every channel of every pixel of the image lies inside the buffer.
pub proof fn lemma_position_bounds(width: int, height: int, row: int, col: int, channel: int)
    requires
        in_image(width, height, row, col),
        0 <= channel < 4,
    ensures
        0 <= position(width, row, col, channel) < buffer_len(width, height),
        position(width, row, col, 0) + 4 <= buffer_len(width, height),
        position(width, row, col, channel) == position(width, row, col, 0) + channel,
{
    assert(0 <= row * width) by (nonlinear_arith)
        requires
            0 <= row,
            0 <= width,
    ;
    assert((row + 1) * width <= height * width) by {
        lemma_mul_inequality(row + 1, height, width);
    }
    assert((row + 1) * width == row * width + width) by {
        lemma_mul_is_distributive_add_other_way(width, row, 1);
    }
    assert(height * width == width * height) by (nonlinear_arith);
}

/// A position names its pixel and channel: row, column and channel can be
/// read back from it.
pub proof fn lemma_position_parts(width: int, row: int, col: int, channel: int)
    requires
        0 <= row,
        0 <= col < width,
        0 <= channel < 4,
    ensures
        row_of(width, position(width, row, col, channel)) == row,
        col_of(width, position(width, row, col, channel)) == col,
        channel_of(position(width, row, col, channel)) == channel,
{
    let index = position(width, row, col, channel);
    let pixel = row * width + col;
    lemma_fundamental_div_mod_converse(index, 4, pixel, channel);
    lemma_fundamental_div_mod_converse(pixel, width, row, col);
}

/// Every byte of the buffer is one channel of one pixel of the image.
pub proof fn lemma_index_parts(width: int, height: int, index: int)
    requires
        0 <= width,
        0 <= height,
        0 <= index < buffer_len(width, height),
    ensures
        in_image(width, height, row_of(width, index), col_of(width, index)),
        0 <= channel_of(index) < 4,
        position(width, row_of(width, index), col_of(width, index), channel_of(index)) == index,
{
    assert(width > 0) by (nonlinear_arith)
        requires
            0 <= width,
            0 < width * height * 4,
    ;
    let pixel = index / 4;
    lemma_fundamental_div_mod(index, 4);
    lemma_fundamental_div_mod(pixel, width);
    lemma_mod_bound(pixel, width);
    let row = pixel / width;
    let col = pixel % width;
    assert(pixel < width * height);
    assert(width * row == row * width) by (nonlinear_arith);
    assert(0 <= row) by (nonlinear_arith)
        requires
            0 <= pixel,
            width > 0,
            pixel == row * width + col,
            col < width,
    ;
    assert(row < height) by (nonlinear_arith)
        requires
            pixel < width * height,
            pixel == row * width + col,
            0 <= col,
            width > 0,
    ;
}

/// Two different pixels occupy disjoint runs of four bytes.
pub proof fn lemma_pixels_apart(width: int, row1: int, col1: int, row2: int, col2: int)
    requires
        0 <= col1 < width,
        0 <= col2 < width,
        row1 != row2 || col1 != col2,
    ensures
        position(width, row1, col1, 0) + 4 <= position(width, row2, col2, 0) || position(
            width,
            row2,
            col2,
            0,
        ) + 4 <= position(width, row1, col1, 0),
{
    if row1 < row2 {
        assert(row1 * width + col1 < row2 * width + col2) by (nonlinear_arith)
            requires
                row1 < row2,
                0 <= col1 < width,
                0 <= col2 < width,
        ;
    } else if row2 < row1 {
        assert(row2 * width + col2 < row1 * width + col1) by (nonlinear_arith)
            requires
                row2 < row1,
                0 <= col1 < width,
                0 <= col2 < width,
        ;
    }
}

/// Length in bytes of a buffer that holds `width` by `height` pixels, where
/// a buffer of that length can be addressed at all.
pub fn buffer_size(width: u32, height: u32) -> (size: Option<usize>)
    ensures
        size == if buffer_len(width as int, height as int) <= usize::MAX {
            Some(buffer_len(width as int, height as int) as usize)
        } else {
            None::<usize>
        },
{
    proof {
        assert(0 <= width * height <= 0xFFFF_FFFF * 0xFFFF_FFFF) by (nonlinear_arith)
            requires
                0 <= width <= 0xFFFF_FFFF,
                0 <= height <= 0xFFFF_FFFF,
        ;
    }
    let pixels: u64 = width as u64 * height as u64;
    if pixels <= (usize::MAX / CHANNELS) as u64 {
        Some(pixels as usize * CHANNELS)
    } else {
        None
    }
}

/// Position of the first channel of the pixel at `(row, col)`.
pub fn offset_of(width: u32, height: u32, row: u32, col: u32) -> (offset: usize)
    requires
        in_image(width as int, height as int, row as int, col as int),
        buffer_len(width as int, height as int) <= usize::MAX,
    ensures
        offset == position(width as int, row as int, col as int, 0),
        offset + 4 <= buffer_len(width as int, height as int),
{
    proof {
        lemma_position_bounds(width as int, height as int, row as int, col as int, 0);
        assert(0 <= row * width) by (nonlinear_arith)
            requires
                0 <= row,
                0 <= width,
        ;
    }
    let pixel: usize = row as usize * width as usize + col as usize;
    pixel * CHANNELS
}

} // verus!
