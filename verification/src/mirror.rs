//! The mirror filter: exchanges the columns, the rows, or both, in place.

use vstd::prelude::*;
use crate::params::MirrorParams;
use crate::pixels::{
    buffer_len, channel_of, col_of, in_image, lemma_index_parts, lemma_pixels_apart,
    lemma_position_bounds, lemma_position_parts, offset_of, position, row_of,
};

verus! {

/// The buffer `s` with the bytes at positions `a` and `b` exchanged.
pub open spec fn exchanged(s: Seq<u8>, a: int, b: int) -> Seq<u8> {
    s.update(a, s[b]).update(b, s[a])
}

/// The buffer `s` after the four channels that start at `i` have been
/// exchanged, one after another, with the four that start at `j`.
pub open spec fn point_swapped(s: Seq<u8>, i: int, j: int) -> Seq<u8> {
    exchanged(exchanged(exchanged(exchanged(s, i, j), i + 1, j + 1), i + 2, j + 2), i + 3, j + 3)
}

/// Where the byte at `x` comes from when the pixels that start at `i` and at
/// `j` change places.
pub open spec fn swap_source(i: int, j: int, x: int) -> int {
    if i <= x < i + 4 {
        x - i + j
    } else if j <= x < j + 4 {
        x - j + i
    } else {
        x
    }
}

/// Of two pixels that are the same or do not overlap, a point swap moves
/// each whole to the place of the other and touches nothing else.
pub proof fn lemma_point_swapped(s: Seq<u8>, i: int, j: int)
    requires
        0 <= i,
        i + 4 <= s.len(),
        0 <= j,
        j + 4 <= s.len(),
        i == j || i + 4 <= j || j + 4 <= i,
    ensures
        point_swapped(s, i, j).len() == s.len(),
        forall|x: int|
            0 <= x < s.len() ==> #[trigger] point_swapped(s, i, j)[x] == s[swap_source(i, j, x)],
{
}

fn exchange(data: &mut [u8], a: usize, b: usize)
    requires
        a < old(data)@.len(),
        b < old(data)@.len(),
    ensures
        final(data)@ == exchanged(old(data)@, a as int, b as int),
{
    let first: u8 = data[a];
    let second: u8 = data[b];
    data[a] = second;
    data[b] = first;
}

/// Exchanges the pixel whose first channel is at `i` with the one whose
/// first channel is at `j`: all four channels move together.
pub fn swap_point(data: &mut [u8], i: usize, j: usize)
    requires
        i + 3 < old(data)@.len(),
        j + 3 < old(data)@.len(),
    ensures
        final(data)@ == point_swapped(old(data)@, i as int, j as int),
{
    let len: usize = data.len();
    assert(i + 3 < len && j + 3 < len);
    exchange(data, i, j);
    exchange(data, i + 1, j + 1);
    exchange(data, i + 2, j + 2);
    exchange(data, i + 3, j + 3);
}

/// The coordinate that `at` is exchanged with along an axis of `extent`
/// pixels, or `at` itself where that axis is not flipped.
pub open spec fn flipped(extent: int, at: int, flip: bool) -> int {
    if flip {
        extent - 1 - at
    } else {
        at
    }
}

/// Position in the input of the byte that the mirrored image holds at
/// `index`: same channel, of the pixel in the flipped row and column.
pub open spec fn source(width: int, height: int, params: MirrorParams, index: int) -> int {
    position(
        width,
        flipped(height, row_of(width, index), params.vertical),
        flipped(width, col_of(width, index), params.horizontal),
        channel_of(index),
    )
}

/// The image `s` of `width` by `height` pixels, mirrored as `params` say.
pub open spec fn mirrored(s: Seq<u8>, width: int, height: int, params: MirrorParams) -> Seq<u8> {
    Seq::new(s.len(), |index: int| s[source(width, height, params, index)])
}

/// The corner of a block of four that the corner `own` takes its pixel
/// from: `across` lies in the same row, `below` in the same column,
/// `opposite` in neither.
pub open spec fn corner_source(
    params: MirrorParams,
    own: int,
    across: int,
    below: int,
    opposite: int,
) -> int {
    if params.horizontal && params.vertical {
        opposite
    } else if params.horizontal {
        across
    } else if params.vertical {
        below
    } else {
        own
    }
}

/// Where the byte at `x` comes from when the block of four pixels that
/// start at `a` (top left), `b` (top right), `c` (bottom left) and `d`
/// (bottom right) is mirrored.
pub open spec fn quad_source(params: MirrorParams, a: int, b: int, c: int, d: int, x: int) -> int {
    if a <= x < a + 4 {
        x - a + corner_source(params, a, b, c, d)
    } else if b <= x < b + 4 {
        x - b + corner_source(params, b, a, d, c)
    } else if c <= x < c + 4 {
        x - c + corner_source(params, c, d, a, b)
    } else if d <= x < d + 4 {
        x - d + corner_source(params, d, c, b, a)
    } else {
        x
    }
}

/// Two pixels that start at `p` and `q` are one pixel or share no byte.
pub open spec fn same_or_apart(p: int, q: int) -> bool {
    p == q || p + 4 <= q || q + 4 <= p
}

/// Exchanges two pixels that are the same or do not overlap.
fn swap_apart(data: &mut [u8], i: usize, j: usize)
    requires
        i + 4 <= old(data)@.len(),
        j + 4 <= old(data)@.len(),
        same_or_apart(i as int, j as int),
    ensures
        final(data)@.len() == old(data)@.len(),
        forall|x: int|
            0 <= x < old(data)@.len() ==> #[trigger] final(data)@[x] == old(data)@[swap_source(
                i as int,
                j as int,
                x,
            )],
{
    proof {
        lemma_point_swapped(data@, i as int, j as int);
    }
    swap_point(data, i, j);
}

/// Exchanges the left corners of a block of four with the right ones.
fn mirror_quad_columns(data: &mut [u8], a: usize, b: usize, c: usize, d: usize)
    requires
        a + 4 <= old(data)@.len(),
        b + 4 <= old(data)@.len(),
        c + 4 <= old(data)@.len(),
        d + 4 <= old(data)@.len(),
        quad(a as int, b as int, c as int, d as int),
    ensures
        final(data)@.len() == old(data)@.len(),
        forall|x: int|
            0 <= x < old(data)@.len() ==> #[trigger] final(data)@[x] == old(data)@[quad_source(
                MirrorParams { horizontal: true, vertical: false },
                a as int,
                b as int,
                c as int,
                d as int,
                x,
            )],
{
    swap_apart(data, a, b);
    if a != c {
        swap_apart(data, c, d);
    }
}

/// Exchanges the top corners of a block of four with the bottom ones.
fn mirror_quad_rows(data: &mut [u8], a: usize, b: usize, c: usize, d: usize)
    requires
        a + 4 <= old(data)@.len(),
        b + 4 <= old(data)@.len(),
        c + 4 <= old(data)@.len(),
        d + 4 <= old(data)@.len(),
        quad(a as int, b as int, c as int, d as int),
    ensures
        final(data)@.len() == old(data)@.len(),
        forall|x: int|
            0 <= x < old(data)@.len() ==> #[trigger] final(data)@[x] == old(data)@[quad_source(
                MirrorParams { horizontal: false, vertical: true },
                a as int,
                b as int,
                c as int,
                d as int,
                x,
            )],
{
    swap_apart(data, a, c);
    if a != b {
        swap_apart(data, b, d);
    }
}

/// Whether `a`, `b`, `c`, `d` can be the corners of a block of four: top
/// left, top right, bottom left, bottom right. Two corners either share no
/// byte or are one pixel, which they are where the block is one row or one
/// column taken twice.
pub open spec fn quad(a: int, b: int, c: int, d: int) -> bool {
    &&& 0 <= a && 0 <= b && 0 <= c && 0 <= d
    &&& same_or_apart(a, b)
    &&& same_or_apart(a, c)
    &&& same_or_apart(a, d)
    &&& same_or_apart(b, c)
    &&& same_or_apart(b, d)
    &&& same_or_apart(c, d)
    &&& (a == b) == (c == d)
    &&& (a == c) == (b == d)
    &&& (a == d) == (a == b && a == c)
    &&& (b == c) == (a == b && a == c)
}

/// Mirrors one block of four pixels: those of one column pair in one row
/// pair. In the middle row or column of an odd image the pair is one line
/// taken twice, and that line is exchanged once.
fn mirror_quad(data: &mut [u8], a: usize, b: usize, c: usize, d: usize, params: &MirrorParams)
    requires
        a + 4 <= old(data)@.len(),
        b + 4 <= old(data)@.len(),
        c + 4 <= old(data)@.len(),
        d + 4 <= old(data)@.len(),
        quad(a as int, b as int, c as int, d as int),
    ensures
        final(data)@.len() == old(data)@.len(),
        forall|x: int|
            0 <= x < old(data)@.len() ==> #[trigger] final(data)@[x] == old(data)@[quad_source(
                *params,
                a as int,
                b as int,
                c as int,
                d as int,
                x,
            )],
{
    let ghost start = data@;
    if params.horizontal {
        mirror_quad_columns(data, a, b, c, d);
    }
    let ghost middle = data@;
    if params.vertical {
        mirror_quad_rows(data, a, b, c, d);
    }
    assert forall|x: int| 0 <= x < start.len() implies #[trigger] data@[x] == start[quad_source(
        *params,
        a as int,
        b as int,
        c as int,
        d as int,
        x,
    )] by {
        let via = if params.vertical {
            quad_source(
                MirrorParams { horizontal: false, vertical: true },
                a as int,
                b as int,
                c as int,
                d as int,
                x,
            )
        } else {
            x
        };
        assert(data@[x] == middle[via]);
    }
}

/// Distance of `at` from the nearer end of an axis of `extent` pixels.
pub open spec fn depth(extent: int, at: int) -> int {
    if at <= extent - 1 - at {
        at
    } else {
        extent - 1 - at
    }
}

/// Whether the sweep has already dealt with the pixel at `(row, col)` when
/// it stands at the row pair `top` and the column pair `left`.
pub open spec fn settled(width: int, height: int, top: int, left: int, row: int, col: int) -> bool {
    depth(height, row) < top || (depth(height, row) == top && depth(width, col) < left)
}

/// The buffer `now` in the middle of the sweep over `before`: the pixels
/// dealt with hold what the mirrored image holds, the others are untouched.
pub open spec fn swept(
    before: Seq<u8>,
    now: Seq<u8>,
    width: int,
    height: int,
    params: MirrorParams,
    top: int,
    left: int,
) -> bool {
    &&& now.len() == before.len()
    &&& forall|row: int, col: int, channel: int|
        in_image(width, height, row, col) && 0 <= channel < 4 ==> now[#[trigger] position(
            width,
            row,
            col,
            channel,
        )] == before[if settled(width, height, top, left, row, col) {
            position(
                width,
                flipped(height, row, params.vertical),
                flipped(width, col, params.horizontal),
                channel,
            )
        } else {
            position(width, row, col, channel)
        }]
}

proof fn lemma_quad_step(
    before: Seq<u8>,
    pre: Seq<u8>,
    post: Seq<u8>,
    width: int,
    height: int,
    params: MirrorParams,
    top: int,
    left: int,
)
    requires
        before.len() == buffer_len(width, height),
        0 <= top <= height - 1 - top,
        0 <= left <= width - 1 - left,
        swept(before, pre, width, height, params, top, left),
        post.len() == pre.len(),
        forall|x: int|
            0 <= x < pre.len() ==> #[trigger] post[x] == pre[quad_source(
                params,
                position(width, top, left, 0),
                position(width, top, width - 1 - left, 0),
                position(width, height - 1 - top, left, 0),
                position(width, height - 1 - top, width - 1 - left, 0),
                x,
            )],
    ensures
        swept(before, post, width, height, params, top, left + 1),
{
    let bottom = height - 1 - top;
    let right = width - 1 - left;
    let a = position(width, top, left, 0);
    let b = position(width, top, right, 0);
    let c = position(width, bottom, left, 0);
    let d = position(width, bottom, right, 0);
    lemma_position_bounds(width, height, top, left, 0);
    lemma_position_bounds(width, height, top, right, 0);
    lemma_position_bounds(width, height, bottom, left, 0);
    lemma_position_bounds(width, height, bottom, right, 0);
    assert forall|row: int, col: int, channel: int|
        in_image(width, height, row, col) && 0 <= channel < 4 implies post[#[trigger] position(
        width,
        row,
        col,
        channel,
    )] == before[if settled(width, height, top, left + 1, row, col) {
        position(
            width,
            flipped(height, row, params.vertical),
            flipped(width, col, params.horizontal),
            channel,
        )
    } else {
        position(width, row, col, channel)
    }] by {
        let p = position(width, row, col, channel);
        lemma_position_bounds(width, height, row, col, channel);
        let own = position(width, row, col, 0);
        if depth(height, row) == top && depth(width, col) == left {
            let from_row = flipped(height, row, params.vertical);
            let from_col = flipped(width, col, params.horizontal);
            lemma_position_bounds(width, height, from_row, from_col, channel);
            let from = position(width, from_row, from_col, channel);
            assert(!settled(width, height, top, left, from_row, from_col));
            assert(pre[from] == before[from]);
            if row != top {
                lemma_pixels_apart(width, row, col, top, left);
                lemma_pixels_apart(width, row, col, top, right);
            }
            if col != left {
                lemma_pixels_apart(width, row, col, top, left);
                lemma_pixels_apart(width, row, col, bottom, left);
            }
            assert(quad_source(params, a, b, c, d, p) == from);
        } else {
            lemma_pixels_apart(width, row, col, top, left);
            lemma_pixels_apart(width, row, col, top, right);
            lemma_pixels_apart(width, row, col, bottom, left);
            lemma_pixels_apart(width, row, col, bottom, right);
            assert(quad_source(params, a, b, c, d, p) == p);
            assert(settled(width, height, top, left + 1, row, col) == settled(
                width,
                height,
                top,
                left,
                row,
                col,
            ));
        }
    }
}

proof fn lemma_row_pair_done(
    before: Seq<u8>,
    now: Seq<u8>,
    width: int,
    height: int,
    params: MirrorParams,
    top: int,
    left: int,
)
    requires
        swept(before, now, width, height, params, top, left),
        left >= width - left,
    ensures
        swept(before, now, width, height, params, top + 1, 0),
{
    assert forall|row: int, col: int, channel: int|
        in_image(width, height, row, col) && 0 <= channel < 4 implies now[#[trigger] position(
        width,
        row,
        col,
        channel,
    )] == before[if settled(width, height, top + 1, 0, row, col) {
        position(
            width,
            flipped(height, row, params.vertical),
            flipped(width, col, params.horizontal),
            channel,
        )
    } else {
        position(width, row, col, channel)
    }] by {
        assert(settled(width, height, top + 1, 0, row, col) == settled(
            width,
            height,
            top,
            left,
            row,
            col,
        ));
    }
}

proof fn lemma_sweep_done(
    before: Seq<u8>,
    now: Seq<u8>,
    width: int,
    height: int,
    params: MirrorParams,
    top: int,
)
    requires
        0 <= width,
        0 <= height,
        before.len() == buffer_len(width, height),
        swept(before, now, width, height, params, top, 0),
        top >= height - top,
    ensures
        now == mirrored(before, width, height, params),
{
    let goal = mirrored(before, width, height, params);
    assert forall|index: int| 0 <= index < now.len() implies now[index] == goal[index] by {
        lemma_index_parts(width, height, index);
        let row = row_of(width, index);
        let col = col_of(width, index);
        let channel = channel_of(index);
        assert(now[position(width, row, col, channel)] == before[source(
            width,
            height,
            params,
            index,
        )]);
    }
    assert(now =~= goal);
}

/// Mirrors the image in `data` in place: with `horizontal` each pixel
/// changes places with the one in the opposite column of its row, with
/// `vertical` with the one in the opposite row of its column, with both
/// with the one opposite through the centre, and with neither nothing moves.
/// The sweep visits the top half of the rows and the left half of the
/// columns, and deals with a block of four corners at each step.
pub fn process_image(width: u32, height: u32, data: &mut [u8], params: &MirrorParams)
    requires
        old(data)@.len() == buffer_len(width as int, height as int),
    ensures
        final(data)@ == mirrored(old(data)@, width as int, height as int, *params),
{
    let ghost before = data@;
    let len: usize = data.len();
    let mut top: u32 = 0;
    while top < height - top
        invariant
            top <= height,
            data@.len() == buffer_len(width as int, height as int),
            data@.len() == len,
            swept(before, data@, width as int, height as int, *params, top as int, 0),
        decreases height - top,
    {
        let bottom: u32 = height - 1 - top;
        let mut left: u32 = 0;
        while left < width - left
            invariant
                left <= width,
                top < height - top,
                bottom == height - 1 - top,
                before.len() == buffer_len(width as int, height as int),
                data@.len() == len,
                swept(before, data@, width as int, height as int, *params, top as int, left as int),
            decreases width - left,
        {
            let right: u32 = width - 1 - left;
            let a: usize = offset_of(width, height, top, left);
            let b: usize = offset_of(width, height, top, right);
            let c: usize = offset_of(width, height, bottom, left);
            let d: usize = offset_of(width, height, bottom, right);
            proof {
                let w = width as int;
                if left != right {
                    lemma_pixels_apart(w, top as int, left as int, top as int, right as int);
                    lemma_pixels_apart(w, bottom as int, left as int, bottom as int, right as int);
                }
                if top != bottom {
                    lemma_pixels_apart(w, top as int, left as int, bottom as int, left as int);
                    lemma_pixels_apart(w, top as int, right as int, bottom as int, right as int);
                }
                if left != right || top != bottom {
                    lemma_pixels_apart(w, top as int, left as int, bottom as int, right as int);
                    lemma_pixels_apart(w, top as int, right as int, bottom as int, left as int);
                }
            }
            let ghost pre = data@;
            mirror_quad(data, a, b, c, d, params);
            proof {
                lemma_quad_step(
                    before,
                    pre,
                    data@,
                    width as int,
                    height as int,
                    *params,
                    top as int,
                    left as int,
                );
            }
            left = left + 1;
        }
        proof {
            lemma_row_pair_done(
                before,
                data@,
                width as int,
                height as int,
                *params,
                top as int,
                left as int,
            );
        }
        top = top + 1;
    }
    proof {
        lemma_sweep_done(before, data@, width as int, height as int, *params, top as int);
    }
}

/// The image `s` turned by half a turn about its centre: the pixels in
/// reverse order, each with its channels in their own order.
pub open spec fn point_reflected(s: Seq<u8>, width: int, height: int) -> Seq<u8> {
    Seq::new(s.len(), |index: int| s[(width * height - 1 - index / 4) * 4 + index % 4])
}

/// Mirroring twice with the same parameters gives the image back, whatever
/// the parameters are.
pub proof fn lemma_mirror_twice(s: Seq<u8>, width: int, height: int, params: MirrorParams)
    requires
        0 <= width,
        0 <= height,
        s.len() == buffer_len(width, height),
    ensures
        mirrored(mirrored(s, width, height, params), width, height, params) == s,
{
    let once = mirrored(s, width, height, params);
    let twice = mirrored(once, width, height, params);
    assert forall|index: int| 0 <= index < s.len() implies twice[index] == s[index] by {
        lemma_index_parts(width, height, index);
        let row = flipped(height, row_of(width, index), params.vertical);
        let col = flipped(width, col_of(width, index), params.horizontal);
        let channel = channel_of(index);
        lemma_position_bounds(width, height, row, col, channel);
        lemma_position_parts(width, row, col, channel);
    }
    assert(twice =~= s);
}

/// Exchanging the columns twice gives the image back.
pub proof fn lemma_horizontal_twice(s: Seq<u8>, width: int, height: int)
    requires
        0 <= width,
        0 <= height,
        s.len() == buffer_len(width, height),
    ensures
        ({
            let params = MirrorParams { horizontal: true, vertical: false };
            mirrored(mirrored(s, width, height, params), width, height, params) == s
        }),
{
    lemma_mirror_twice(s, width, height, MirrorParams { horizontal: true, vertical: false });
}

/// Exchanging the rows twice gives the image back.
pub proof fn lemma_vertical_twice(s: Seq<u8>, width: int, height: int)
    requires
        0 <= width,
        0 <= height,
        s.len() == buffer_len(width, height),
    ensures
        ({
            let params = MirrorParams { horizontal: false, vertical: true };
            mirrored(mirrored(s, width, height, params), width, height, params) == s
        }),
{
    lemma_mirror_twice(s, width, height, MirrorParams { horizontal: false, vertical: true });
}

/// Exchanging both the columns and the rows is a half turn about the centre
/// of the image, and doing it twice gives the image back.
pub proof fn lemma_both_is_half_turn(s: Seq<u8>, width: int, height: int)
    requires
        0 <= width,
        0 <= height,
        s.len() == buffer_len(width, height),
    ensures
        ({
            let params = MirrorParams { horizontal: true, vertical: true };
            &&& mirrored(s, width, height, params) == point_reflected(s, width, height)
            &&& mirrored(mirrored(s, width, height, params), width, height, params) == s
        }),
{
    let params = MirrorParams { horizontal: true, vertical: true };
    lemma_mirror_twice(s, width, height, params);
    let once = mirrored(s, width, height, params);
    let turned = point_reflected(s, width, height);
    assert forall|index: int| 0 <= index < s.len() implies once[index] == turned[index] by {
        lemma_index_parts(width, height, index);
        let row = row_of(width, index);
        let col = col_of(width, index);
        assert(index / 4 == row * width + col);
        assert((height - 1 - row) * width + (width - 1 - col) == width * height - 1 - (row * width
            + col)) by (nonlinear_arith);
    }
    assert(once =~= turned);
}

/// With neither flag set the mirror leaves the image as it is.
pub proof fn lemma_neither_is_identity(s: Seq<u8>, width: int, height: int)
    requires
        0 <= width,
        0 <= height,
        s.len() == buffer_len(width, height),
    ensures
        mirrored(s, width, height, MirrorParams { horizontal: false, vertical: false }) == s,
{
    let params = MirrorParams { horizontal: false, vertical: false };
    let once = mirrored(s, width, height, params);
    assert forall|index: int| 0 <= index < s.len() implies once[index] == s[index] by {
        lemma_index_parts(width, height, index);
    }
    assert(once =~= s);
}

} // verus!
