//! The blur filter: every pixel becomes a weighted mean of the pixels within
//! a radius of it, a whole pass at a time.
//!
//! Which pixels count, in what order and at what distance is decided here,
//! in integers. The weighted mean itself is the caller's: it is handed in as
//! a function from the samples of one neighbourhood to a colour.

use vstd::prelude::*;
use vstd::slice::slice_to_vec;
use crate::params::BlurParams;
use crate::pixels::{
    buffer_len, in_image, lemma_pixels_apart, lemma_position_bounds, offset_of, position,
};

verus! {

/// One neighbour of a pixel, as the weighted mean sees it.
#[derive(Clone, Copy, Debug, PartialEq, Eq, Structural)]
pub struct Sample {
    /// Square of the distance between the neighbour and the pixel.
    pub distance_sq: u64,
    pub red: u8,
    pub green: u8,
    pub blue: u8,
}

/// The colour channels of one pixel. Alpha is no part of it: the blur
/// leaves alpha alone.
#[derive(Clone, Copy, Debug, PartialEq, Eq, Structural)]
pub struct Rgb {
    pub red: u8,
    pub green: u8,
    pub blue: u8,
}

/// First coordinate of the window of `radius` around `center`, cut off at
/// the edge of the image.
pub open spec fn window_start(center: int, radius: int) -> int {
    if center - radius < 0 {
        0
    } else {
        center - radius
    }
}

/// Last coordinate of the window of `radius` around `center`, cut off at
/// the edge of an axis of `extent` pixels.
pub open spec fn window_end(center: int, radius: int, extent: int) -> int {
    if center + radius > extent - 1 {
        extent - 1
    } else {
        center + radius
    }
}

/// Square of the distance between the pixel in column `x`, row `y` and the
/// one in column `i`, row `j`.
pub open spec fn distance_sq(x: int, y: int, i: int, j: int) -> int {
    (i - x) * (i - x) + (j - y) * (j - y)
}

/// Whether the pixel at `(i, j)` lies within `radius` of the one at `(x, y)`.
pub open spec fn in_reach(radius: int, x: int, y: int, i: int, j: int) -> bool {
    distance_sq(x, y, i, j) <= radius * radius
}

/// What the pixel in column `i`, row `j` of `s` contributes to the one in
/// column `x`, row `y`.
pub open spec fn sample_at(s: Seq<u8>, width: int, x: int, y: int, i: int, j: int) -> Sample {
    Sample {
        distance_sq: distance_sq(x, y, i, j) as u64,
        red: s[position(width, j, i, 0)],
        green: s[position(width, j, i, 1)],
        blue: s[position(width, j, i, 2)],
    }
}

/// The samples that column `i` contributes to the pixel at `(x, y)`: those
/// of its rows from `from` up to, not including, `until` that are in reach,
/// from the top down.
pub open spec fn column_samples(
    s: Seq<u8>,
    width: int,
    radius: int,
    x: int,
    y: int,
    i: int,
    from: int,
    until: int,
) -> Seq<Sample>
    decreases until - from,
{
    if until <= from {
        Seq::empty()
    } else {
        let above = column_samples(s, width, radius, x, y, i, from, until - 1);
        if in_reach(radius, x, y, i, until - 1) {
            above.push(sample_at(s, width, x, y, i, until - 1))
        } else {
            above
        }
    }
}

/// The samples that the columns from `from` up to, not including, `until`
/// contribute to the pixel at `(x, y)`: column after column from the left,
/// each over the rows of the window.
pub open spec fn window_samples(
    s: Seq<u8>,
    width: int,
    height: int,
    radius: int,
    x: int,
    y: int,
    from: int,
    until: int,
) -> Seq<Sample>
    decreases until - from,
{
    if until <= from {
        Seq::empty()
    } else {
        window_samples(s, width, height, radius, x, y, from, until - 1) + column_samples(
            s,
            width,
            radius,
            x,
            y,
            until - 1,
            window_start(y, radius),
            window_end(y, radius, height) + 1,
        )
    }
}

/// The samples from which the pixel in column `x`, row `y` is blurred: the
/// pixels of `s` within `radius` of it, in the order in which the window is
/// scanned.
pub open spec fn neighbourhood(
    s: Seq<u8>,
    width: int,
    height: int,
    radius: int,
    x: int,
    y: int,
) -> Seq<Sample> {
    window_samples(
        s,
        width,
        height,
        radius,
        x,
        y,
        window_start(x, radius),
        window_end(x, radius, width) + 1,
    )
}

/// Whether the pixel in column `x`, row `y` of `after` is the blurred pixel
/// of `before`: its colour is a mean that `mean` gives for its
/// neighbourhood, its alpha is the old one.
pub open spec fn pixel_blurred<F: Fn(&Vec<Sample>) -> Rgb>(
    mean: F,
    before: Seq<u8>,
    after: Seq<u8>,
    width: int,
    height: int,
    radius: int,
    x: int,
    y: int,
) -> bool {
    &&& after[position(width, y, x, 3)] == before[position(width, y, x, 3)]
    &&& exists|samples: Vec<Sample>, colour: Rgb|
        {
            &&& samples@ == neighbourhood(before, width, height, radius, x, y)
            &&& #[trigger] mean.ensures((&samples,), colour)
            &&& after[position(width, y, x, 0)] == colour.red
            &&& after[position(width, y, x, 1)] == colour.green
            &&& after[position(width, y, x, 2)] == colour.blue
        }
}

/// Whether `after` is `before` with one pass of the blur made over it:
/// every pixel is blurred from the pixels of `before`, none from one that
/// the pass has already written.
pub open spec fn pass_made<F: Fn(&Vec<Sample>) -> Rgb>(
    mean: F,
    before: Seq<u8>,
    after: Seq<u8>,
    width: int,
    height: int,
    radius: int,
) -> bool {
    &&& after.len() == before.len()
    &&& forall|x: int, y: int|
        in_image(width, height, y, x) ==> #[trigger] pixel_blurred(
            mean,
            before,
            after,
            width,
            height,
            radius,
            x,
            y,
        )
}

/// Whether `after` is `before` with `passes` passes of the blur made over
/// it, one after another, each over the whole output of the one before.
pub open spec fn blurred<F: Fn(&Vec<Sample>) -> Rgb>(
    mean: F,
    before: Seq<u8>,
    after: Seq<u8>,
    width: int,
    height: int,
    radius: int,
    passes: int,
) -> bool {
    exists|stages: Seq<Seq<u8>>|
        {
            &&& stages.len() == passes + 1
            &&& stages[0] == before
            &&& #[trigger] stages[passes] == after
            &&& forall|n: int|
                0 <= n < passes ==> pass_made(
                    mean,
                    #[trigger] stages[n],
                    stages[n + 1],
                    width,
                    height,
                    radius,
                )
        }
}

/// Whether `mean` can be asked for the colour of any neighbourhood that
/// holds at least one sample.
pub open spec fn takes_any_samples<F: Fn(&Vec<Sample>) -> Rgb>(mean: F) -> bool {
    forall|samples: &Vec<Sample>| samples@.len() > 0 ==> #[trigger] mean.requires((samples,))
}

/// A window around a pixel of the image starts at or before the pixel, ends
/// at or after it, and lies inside the image, no more than `radius` from
/// the pixel.
pub proof fn lemma_window(center: int, radius: int, extent: int)
    requires
        0 <= center < extent,
        0 <= radius,
    ensures
        0 <= window_start(center, radius) <= center <= window_end(center, radius, extent) < extent,
        center - window_start(center, radius) <= radius,
        window_end(center, radius, extent) - center <= radius,
{
}

/// At radius zero the neighbourhood of a pixel is that pixel alone, at
/// distance zero.
pub proof fn lemma_radius_zero(s: Seq<u8>, width: int, height: int, x: int, y: int)
    requires
        in_image(width, height, y, x),
    ensures
        neighbourhood(s, width, height, 0, x, y) == seq![
            (Sample {
                distance_sq: 0,
                red: s[position(width, y, x, 0)],
                green: s[position(width, y, x, 1)],
                blue: s[position(width, y, x, 2)],
            }),
        ],
{
    reveal_with_fuel(column_samples, 3);
    reveal_with_fuel(window_samples, 3);
    let column = column_samples(s, width, 0, x, y, x, y, y + 1);
    assert(in_reach(0, x, y, x, y)) by (nonlinear_arith);
    assert(distance_sq(x, y, x, y) == 0) by (nonlinear_arith);
    assert(column =~= seq![sample_at(s, width, x, y, x, y)]);
    assert(neighbourhood(s, width, height, 0, x, y) =~= column);
}

/// Whether `sample` is what a pixel of the image within `radius` of the one
/// in column `x`, row `y` contributes to it.
pub open spec fn from_disc(
    s: Seq<u8>,
    width: int,
    height: int,
    radius: int,
    x: int,
    y: int,
    sample: Sample,
) -> bool {
    exists|i: int, j: int|
        in_image(width, height, j, i) && in_reach(radius, x, y, i, j) && sample
            == #[trigger] sample_at(s, width, x, y, i, j)
}

/// A pixel within `radius` of another is no more than `radius` columns and
/// no more than `radius` rows away from it.
proof fn lemma_reach_is_in_window(radius: int, x: int, y: int, i: int, j: int)
    requires
        0 <= radius,
        in_reach(radius, x, y, i, j),
    ensures
        x - radius <= i <= x + radius,
        y - radius <= j <= y + radius,
{
    assert(x - radius <= i <= x + radius && y - radius <= j <= y + radius) by (nonlinear_arith)
        requires
            0 <= radius,
            (i - x) * (i - x) + (j - y) * (j - y) <= radius * radius,
    ;
}

proof fn lemma_column_members(
    s: Seq<u8>,
    width: int,
    height: int,
    radius: int,
    x: int,
    y: int,
    i: int,
    from: int,
    until: int,
)
    requires
        0 <= i < width,
        0 <= from,
        until <= height,
    ensures
        forall|k: int|
            0 <= k < column_samples(s, width, radius, x, y, i, from, until).len() ==> from_disc(
                s,
                width,
                height,
                radius,
                x,
                y,
                #[trigger] column_samples(s, width, radius, x, y, i, from, until)[k],
            ),
        forall|j: int|
            from <= j < until && in_reach(radius, x, y, i, j) ==> column_samples(
                s,
                width,
                radius,
                x,
                y,
                i,
                from,
                until,
            ).contains(#[trigger] sample_at(s, width, x, y, i, j)),
    decreases until - from,
{
    let all = column_samples(s, width, radius, x, y, i, from, until);
    if from < until {
        let above = column_samples(s, width, radius, x, y, i, from, until - 1);
        lemma_column_members(s, width, height, radius, x, y, i, from, until - 1);
        assert forall|k: int| 0 <= k < all.len() implies from_disc(
            s,
            width,
            height,
            radius,
            x,
            y,
            #[trigger] all[k],
        ) by {
            if k < above.len() {
                assert(all[k] == above[k]);
            } else {
                assert(all[k] == sample_at(s, width, x, y, i, until - 1));
            }
        }
        assert forall|j: int| from <= j < until && in_reach(radius, x, y, i, j) implies all.contains(
            #[trigger] sample_at(s, width, x, y, i, j),
        ) by {
            if j < until - 1 {
                let sample = sample_at(s, width, x, y, i, j);
                assert(above.contains(sample));
                let k = choose|k: int| 0 <= k < above.len() && above[k] == sample;
                assert(all[k] == sample);
            } else {
                assert(all[all.len() - 1] == sample_at(s, width, x, y, i, j));
            }
        }
    }
}

proof fn lemma_window_members(
    s: Seq<u8>,
    width: int,
    height: int,
    radius: int,
    x: int,
    y: int,
    from: int,
    until: int,
)
    requires
        in_image(width, height, y, x),
        0 <= radius,
        0 <= from,
        until <= width,
    ensures
        forall|k: int|
            0 <= k < window_samples(s, width, height, radius, x, y, from, until).len()
                ==> from_disc(
                s,
                width,
                height,
                radius,
                x,
                y,
                #[trigger] window_samples(s, width, height, radius, x, y, from, until)[k],
            ),
        forall|i: int, j: int|
            from <= i < until && 0 <= j < height && in_reach(radius, x, y, i, j) ==> window_samples(
                s,
                width,
                height,
                radius,
                x,
                y,
                from,
                until,
            ).contains(#[trigger] sample_at(s, width, x, y, i, j)),
    decreases until - from,
{
    let all = window_samples(s, width, height, radius, x, y, from, until);
    if from < until {
        let first_row = window_start(y, radius);
        let end_row = window_end(y, radius, height) + 1;
        let left = window_samples(s, width, height, radius, x, y, from, until - 1);
        let column = column_samples(s, width, radius, x, y, until - 1, first_row, end_row);
        lemma_window_members(s, width, height, radius, x, y, from, until - 1);
        lemma_column_members(s, width, height, radius, x, y, until - 1, first_row, end_row);
        assert(all == left + column);
        assert forall|k: int| 0 <= k < all.len() implies from_disc(
            s,
            width,
            height,
            radius,
            x,
            y,
            #[trigger] all[k],
        ) by {
            if k < left.len() {
                assert(all[k] == left[k]);
            } else {
                assert(all[k] == column[k - left.len()]);
            }
        }
        assert forall|i: int, j: int|
            from <= i < until && 0 <= j < height && in_reach(
                radius,
                x,
                y,
                i,
                j,
            ) implies all.contains(#[trigger] sample_at(s, width, x, y, i, j)) by {
            let sample = sample_at(s, width, x, y, i, j);
            if i < until - 1 {
                assert(left.contains(sample));
                let k = choose|k: int| 0 <= k < left.len() && left[k] == sample;
                assert(all[k] == sample);
            } else {
                lemma_reach_is_in_window(radius, x, y, i, j);
                assert(column.contains(sample));
                let k = choose|k: int| 0 <= k < column.len() && column[k] == sample;
                assert(all[left.len() + k] == sample);
            }
        }
    }
}

/// The neighbourhood of a pixel holds the pixels of the image within
/// `radius` of it and nothing else: every sample comes from such a pixel,
/// and every such pixel has its sample among them.
pub proof fn lemma_neighbourhood_is_the_disc(
    s: Seq<u8>,
    width: int,
    height: int,
    radius: int,
    x: int,
    y: int,
)
    requires
        in_image(width, height, y, x),
        0 <= radius,
    ensures
        forall|k: int|
            0 <= k < neighbourhood(s, width, height, radius, x, y).len() ==> from_disc(
                s,
                width,
                height,
                radius,
                x,
                y,
                #[trigger] neighbourhood(s, width, height, radius, x, y)[k],
            ),
        forall|i: int, j: int|
            in_image(width, height, j, i) && in_reach(radius, x, y, i, j) ==> neighbourhood(
                s,
                width,
                height,
                radius,
                x,
                y,
            ).contains(#[trigger] sample_at(s, width, x, y, i, j)),
{
    let first_col = window_start(x, radius);
    let end_col = window_end(x, radius, width) + 1;
    lemma_window_members(s, width, height, radius, x, y, first_col, end_col);
    assert forall|i: int, j: int|
        in_image(width, height, j, i) && in_reach(radius, x, y, i, j) implies neighbourhood(
        s,
        width,
        height,
        radius,
        x,
        y,
    ).contains(#[trigger] sample_at(s, width, x, y, i, j)) by {
        lemma_reach_is_in_window(radius, x, y, i, j);
    }
}

/// Whether every pixel of the image `s` has the colour `colour`.
pub open spec fn uniform(s: Seq<u8>, width: int, height: int, colour: Rgb) -> bool {
    forall|row: int, col: int|
        in_image(width, height, row, col) ==> {
            &&& s[#[trigger] position(width, row, col, 0)] == colour.red
            &&& s[position(width, row, col, 1)] == colour.green
            &&& s[position(width, row, col, 2)] == colour.blue
        }
}

/// In an image of one colour every sample of every neighbourhood has that
/// colour: the mean is asked for a mean of equal colours.
pub proof fn lemma_uniform_neighbourhood(
    s: Seq<u8>,
    width: int,
    height: int,
    radius: int,
    x: int,
    y: int,
    colour: Rgb,
)
    requires
        in_image(width, height, y, x),
        0 <= radius,
        uniform(s, width, height, colour),
    ensures
        forall|k: int|
            0 <= k < neighbourhood(s, width, height, radius, x, y).len() ==> {
                let sample = #[trigger] neighbourhood(s, width, height, radius, x, y)[k];
                sample.red == colour.red && sample.green == colour.green && sample.blue
                    == colour.blue
            },
{
    lemma_neighbourhood_is_the_disc(s, width, height, radius, x, y);
    let all = neighbourhood(s, width, height, radius, x, y);
    assert forall|k: int| 0 <= k < all.len() implies {
        let sample = #[trigger] all[k];
        sample.red == colour.red && sample.green == colour.green && sample.blue == colour.blue
    } by {
        assert(from_disc(s, width, height, radius, x, y, all[k]));
        let (i, j) = choose|i: int, j: int|
            in_image(width, height, j, i) && in_reach(radius, x, y, i, j) && all[k]
                == #[trigger] sample_at(s, width, x, y, i, j);
        assert(s[position(width, j, i, 0)] == colour.red);
    }
}

/// The pixels of the window around column `x`, row `y` of `snapshot` that
/// lie within `radius` of it, in scanning order: column after column from
/// the left, each from the top down. The pixel itself is always among them.
pub fn neighbourhood_of(
    snapshot: &[u8],
    width: u32,
    height: u32,
    radius: u32,
    x: u32,
    y: u32,
) -> (samples: Vec<Sample>)
    requires
        snapshot@.len() == buffer_len(width as int, height as int),
        in_image(width as int, height as int, y as int, x as int),
    ensures
        samples@ == neighbourhood(
            snapshot@,
            width as int,
            height as int,
            radius as int,
            x as int,
            y as int,
        ),
        samples@.len() > 0,
{
    let len: usize = snapshot.len();
    let first_col: u32 = if x >= radius {
        x - radius
    } else {
        0
    };
    let last_col: u32 = if radius >= width - 1 - x {
        width - 1
    } else {
        x + radius
    };
    let first_row: u32 = if y >= radius {
        y - radius
    } else {
        0
    };
    let last_row: u32 = if radius >= height - 1 - y {
        height - 1
    } else {
        y + radius
    };
    proof {
        assert(radius * radius <= 0xFFFF_FFFF * 0xFFFF_FFFF) by (nonlinear_arith)
            requires
                0 <= radius <= 0xFFFF_FFFF,
        ;
    }
    let reach: u64 = radius as u64 * radius as u64;
    let mut samples: Vec<Sample> = Vec::new();
    let mut i: u32 = first_col;
    while i <= last_col
        invariant
            snapshot@.len() == buffer_len(width as int, height as int),
            snapshot@.len() == len,
            in_image(width as int, height as int, y as int, x as int),
            first_col == window_start(x as int, radius as int),
            last_col == window_end(x as int, radius as int, width as int),
            first_row == window_start(y as int, radius as int),
            last_row == window_end(y as int, radius as int, height as int),
            reach == radius * radius,
            first_col <= i <= last_col + 1,
            i > x ==> samples@.len() > 0,
            samples@ == window_samples(
                snapshot@,
                width as int,
                height as int,
                radius as int,
                x as int,
                y as int,
                first_col as int,
                i as int,
            ),
        decreases last_col + 1 - i,
    {
        let ghost earlier = samples@;
        let across: u64 = if i >= x {
            (i - x) as u64
        } else {
            (x - i) as u64
        };
        let mut j: u32 = first_row;
        while j <= last_row
            invariant
                snapshot@.len() == buffer_len(width as int, height as int),
                snapshot@.len() == len,
                in_image(width as int, height as int, y as int, x as int),
                first_col == window_start(x as int, radius as int),
                last_col == window_end(x as int, radius as int, width as int),
                first_row == window_start(y as int, radius as int),
                last_row == window_end(y as int, radius as int, height as int),
                reach == radius * radius,
                first_col <= i <= last_col,
                across == (if i >= x {
                    i - x
                } else {
                    x - i
                }),
                first_row <= j <= last_row + 1,
                i > x ==> samples@.len() > 0,
                i == x && j > y ==> samples@.len() > 0,
                samples@ == earlier + column_samples(
                    snapshot@,
                    width as int,
                    radius as int,
                    x as int,
                    y as int,
                    i as int,
                    first_row as int,
                    j as int,
                ),
            decreases last_row + 1 - j,
        {
            let down: u64 = if j >= y {
                (j - y) as u64
            } else {
                (y - j) as u64
            };
            proof {
                lemma_square_bound(across as int, radius as int);
                lemma_square_bound(down as int, radius as int);
                lemma_distance(x as int, y as int, i as int, j as int, across as int, down as int);
                if i == x && j == y {
                    assert(across * across == 0 && down * down == 0) by (nonlinear_arith)
                        requires
                            across == 0,
                            down == 0,
                    ;
                }
            }
            let across_sq: u64 = across * across;
            let down_sq: u64 = down * down;
            if across_sq <= reach - down_sq {
                let at: usize = offset_of(width, height, j, i);
                let sample = Sample {
                    distance_sq: across_sq + down_sq,
                    red: snapshot[at],
                    green: snapshot[at + 1],
                    blue: snapshot[at + 2],
                };
                samples.push(sample);
                proof {
                    assert(sample == sample_at(
                        snapshot@,
                        width as int,
                        x as int,
                        y as int,
                        i as int,
                        j as int,
                    ));
                }
            }
            j = j + 1;
            proof {
                assert(samples@ =~= earlier + column_samples(
                    snapshot@,
                    width as int,
                    radius as int,
                    x as int,
                    y as int,
                    i as int,
                    first_row as int,
                    j as int,
                ));
            }
        }
        i = i + 1;
    }
    samples
}

/// Below a bound the square stays below the bound's square.
proof fn lemma_square_bound(side: int, bound: int)
    requires
        0 <= side <= bound,
    ensures
        0 <= side * side <= bound * bound,
{
    assert(0 <= side * side <= bound * bound) by (nonlinear_arith)
        requires
            0 <= side <= bound,
    ;
}

/// The squared distance is the sum of the squares of the two offsets,
/// whichever way each offset points.
proof fn lemma_distance(x: int, y: int, i: int, j: int, across: int, down: int)
    requires
        across == i - x || across == x - i,
        down == j - y || down == y - j,
    ensures
        distance_sq(x, y, i, j) == across * across + down * down,
{
    assert((i - x) * (i - x) == across * across) by (nonlinear_arith)
        requires
            across == i - x || across == x - i,
    ;
    assert((j - y) * (j - y) == down * down) by (nonlinear_arith)
        requires
            down == j - y || down == y - j,
    ;
}

/// Whether the pixel in column `x`, row `y` holds in `now` what it held in
/// `before`, channel for channel.
pub open spec fn pixel_kept(before: Seq<u8>, now: Seq<u8>, width: int, x: int, y: int) -> bool {
    forall|channel: int|
        0 <= channel < 4 ==> now[position(width, y, x, channel)] == before[position(
            width,
            y,
            x,
            channel,
        )]
}

/// Whether a pass that stands at column `x`, row `y` has already written
/// the pixel in column `i`, row `j`: it goes column by column, each from
/// the top down.
pub open spec fn written(x: int, y: int, i: int, j: int) -> bool {
    i < x || (i == x && j < y)
}

/// What the pass has made of the pixel in column `i`, row `j` when it
/// stands at column `x`, row `y`: blurred if written, else as it was.
pub open spec fn pixel_reached<F: Fn(&Vec<Sample>) -> Rgb>(
    mean: F,
    before: Seq<u8>,
    now: Seq<u8>,
    width: int,
    height: int,
    radius: int,
    x: int,
    y: int,
    i: int,
    j: int,
) -> bool {
    if written(x, y, i, j) {
        pixel_blurred(mean, before, now, width, height, radius, i, j)
    } else {
        pixel_kept(before, now, width, i, j)
    }
}

/// The buffer `now` in the middle of a pass over `before`, which stands at
/// column `x`, row `y`.
pub open spec fn pass_reached<F: Fn(&Vec<Sample>) -> Rgb>(
    mean: F,
    before: Seq<u8>,
    now: Seq<u8>,
    width: int,
    height: int,
    radius: int,
    x: int,
    y: int,
) -> bool {
    &&& now.len() == before.len()
    &&& forall|i: int, j: int|
        in_image(width, height, j, i) ==> #[trigger] pixel_reached(
            mean,
            before,
            now,
            width,
            height,
            radius,
            x,
            y,
            i,
            j,
        )
}

proof fn lemma_pass_step<F: Fn(&Vec<Sample>) -> Rgb>(
    mean: F,
    before: Seq<u8>,
    pre: Seq<u8>,
    post: Seq<u8>,
    width: int,
    height: int,
    radius: int,
    x: int,
    y: int,
    samples: Vec<Sample>,
    colour: Rgb,
)
    requires
        before.len() == buffer_len(width, height),
        in_image(width, height, y, x),
        pass_reached(mean, before, pre, width, height, radius, x, y),
        samples@ == neighbourhood(before, width, height, radius, x, y),
        mean.ensures((&samples,), colour),
        post == pre.update(position(width, y, x, 0), colour.red).update(
            position(width, y, x, 1),
            colour.green,
        ).update(position(width, y, x, 2), colour.blue),
    ensures
        pass_reached(mean, before, post, width, height, radius, x, y + 1),
{
    lemma_position_bounds(width, height, y, x, 0);
    assert forall|i: int, j: int| in_image(width, height, j, i) implies #[trigger] pixel_reached(
        mean,
        before,
        post,
        width,
        height,
        radius,
        x,
        y + 1,
        i,
        j,
    ) by {
        lemma_position_bounds(width, height, j, i, 0);
        assert(pixel_reached(mean, before, pre, width, height, radius, x, y, i, j));
        if i == x && j == y {
            assert(pixel_kept(before, pre, width, i, j));
            assert(pre[position(width, y, x, 3)] == before[position(width, y, x, 3)]);
        } else {
            lemma_pixels_apart(width, j, i, y, x);
            if written(x, y, i, j) {
                assert(pixel_blurred(mean, before, pre, width, height, radius, i, j));
                assert(pixel_blurred(mean, before, post, width, height, radius, i, j));
            } else {
                assert(pixel_kept(before, pre, width, i, j));
                assert(pixel_kept(before, post, width, i, j));
            }
        }
    }
}

proof fn lemma_pass_column_done<F: Fn(&Vec<Sample>) -> Rgb>(
    mean: F,
    before: Seq<u8>,
    now: Seq<u8>,
    width: int,
    height: int,
    radius: int,
    x: int,
    y: int,
)
    requires
        pass_reached(mean, before, now, width, height, radius, x, y),
        y >= height,
    ensures
        pass_reached(mean, before, now, width, height, radius, x + 1, 0),
{
    assert forall|i: int, j: int| in_image(width, height, j, i) implies #[trigger] pixel_reached(
        mean,
        before,
        now,
        width,
        height,
        radius,
        x + 1,
        0,
        i,
        j,
    ) by {
        assert(pixel_reached(mean, before, now, width, height, radius, x, y, i, j));
    }
}

proof fn lemma_pass_done<F: Fn(&Vec<Sample>) -> Rgb>(
    mean: F,
    before: Seq<u8>,
    now: Seq<u8>,
    width: int,
    height: int,
    radius: int,
    x: int,
)
    requires
        pass_reached(mean, before, now, width, height, radius, x, 0),
        x >= width,
    ensures
        pass_made(mean, before, now, width, height, radius),
{
    assert forall|i: int, j: int| in_image(width, height, j, i) implies #[trigger] pixel_blurred(
        mean,
        before,
        now,
        width,
        height,
        radius,
        i,
        j,
    ) by {
        assert(pixel_reached(mean, before, now, width, height, radius, x, 0, i, j));
    }
}

/// Makes one pass over `data`, which holds what `snapshot` holds: every
/// pixel is blurred from the pixels of `snapshot`.
fn blur_pass<F: Fn(&Vec<Sample>) -> Rgb>(
    width: u32,
    height: u32,
    snapshot: &[u8],
    data: &mut [u8],
    radius: u32,
    mean: &F,
)
    requires
        snapshot@.len() == buffer_len(width as int, height as int),
        old(data)@ == snapshot@,
        takes_any_samples(*mean),
    ensures
        pass_made(*mean, snapshot@, final(data)@, width as int, height as int, radius as int),
{
    let len: usize = data.len();
    let mut x: u32 = 0;
    while x < width
        invariant
            x <= width,
            snapshot@.len() == buffer_len(width as int, height as int),
            data@.len() == len,
            takes_any_samples(*mean),
            pass_reached(
                *mean,
                snapshot@,
                data@,
                width as int,
                height as int,
                radius as int,
                x as int,
                0,
            ),
        decreases width - x,
    {
        let mut y: u32 = 0;
        while y < height
            invariant
                x < width,
                y <= height,
                snapshot@.len() == buffer_len(width as int, height as int),
                data@.len() == len,
                takes_any_samples(*mean),
                pass_reached(
                    *mean,
                    snapshot@,
                    data@,
                    width as int,
                    height as int,
                    radius as int,
                    x as int,
                    y as int,
                ),
            decreases height - y,
        {
            let samples: Vec<Sample> = neighbourhood_of(snapshot, width, height, radius, x, y);
            let colour: Rgb = mean(&samples);
            let at: usize = offset_of(width, height, y, x);
            let ghost pre = data@;
            data[at] = colour.red;
            data[at + 1] = colour.green;
            data[at + 2] = colour.blue;
            proof {
                lemma_pass_step(
                    *mean,
                    snapshot@,
                    pre,
                    data@,
                    width as int,
                    height as int,
                    radius as int,
                    x as int,
                    y as int,
                    samples,
                    colour,
                );
            }
            y = y + 1;
        }
        proof {
            lemma_pass_column_done(
                *mean,
                snapshot@,
                data@,
                width as int,
                height as int,
                radius as int,
                x as int,
                y as int,
            );
        }
        x = x + 1;
    }
    proof {
        lemma_pass_done(
            *mean,
            snapshot@,
            data@,
            width as int,
            height as int,
            radius as int,
            x as int,
        );
    }
}

/// Whether the alpha of every pixel is in `after` what it is in `before`.
pub open spec fn alpha_kept(before: Seq<u8>, after: Seq<u8>, width: int, height: int) -> bool {
    forall|x: int, y: int|
        in_image(width, height, y, x) ==> after[#[trigger] position(width, y, x, 3)]
            == before[position(width, y, x, 3)]
}

proof fn lemma_stages_keep_alpha<F: Fn(&Vec<Sample>) -> Rgb>(
    mean: F,
    stages: Seq<Seq<u8>>,
    width: int,
    height: int,
    radius: int,
    passes: int,
    n: int,
)
    requires
        0 <= n <= passes,
        stages.len() == passes + 1,
        forall|k: int|
            0 <= k < passes ==> pass_made(
                mean,
                #[trigger] stages[k],
                stages[k + 1],
                width,
                height,
                radius,
            ),
    ensures
        stages[n].len() == stages[0].len(),
        alpha_kept(stages[0], stages[n], width, height),
    decreases n,
{
    if n > 0 {
        lemma_stages_keep_alpha(mean, stages, width, height, radius, passes, n - 1);
        assert(pass_made(mean, stages[n - 1], stages[n], width, height, radius));
        assert forall|x: int, y: int| in_image(width, height, y, x) implies stages[n][#[trigger] position(
            width,
            y,
            x,
            3,
        )] == stages[0][position(width, y, x, 3)] by {
            assert(pixel_blurred(mean, stages[n - 1], stages[n], width, height, radius, x, y));
        }
    }
}

/// The blur never changes the length of the buffer nor the alpha of a
/// pixel, however many passes it makes and whatever the mean is.
pub proof fn lemma_blur_keeps_alpha<F: Fn(&Vec<Sample>) -> Rgb>(
    mean: F,
    before: Seq<u8>,
    after: Seq<u8>,
    width: int,
    height: int,
    radius: int,
    passes: int,
)
    requires
        0 <= passes,
        blurred(mean, before, after, width, height, radius, passes),
    ensures
        after.len() == before.len(),
        alpha_kept(before, after, width, height),
{
    let stages = choose|stages: Seq<Seq<u8>>|
        {
            &&& stages.len() == passes + 1
            &&& stages[0] == before
            &&& #[trigger] stages[passes] == after
            &&& forall|n: int|
                0 <= n < passes ==> pass_made(
                    mean,
                    #[trigger] stages[n],
                    stages[n + 1],
                    width,
                    height,
                    radius,
                )
        };
    lemma_stages_keep_alpha(mean, stages, width, height, radius, passes, passes);
}

/// A blur of no passes leaves the image as it is.
pub proof fn lemma_no_pass_is_identity<F: Fn(&Vec<Sample>) -> Rgb>(
    mean: F,
    before: Seq<u8>,
    after: Seq<u8>,
    width: int,
    height: int,
    radius: int,
)
    requires
        blurred(mean, before, after, width, height, radius, 0),
    ensures
        after == before,
{
}

/// Blurs the image in `data` in place, `params.iterations` times over. Each
/// pass works from a copy of the whole output of the pass before it, so no
/// pixel is blurred from one that the same pass has already written. The
/// colour of a pixel becomes what `mean` gives for its neighbourhood: the
/// pixels within `params.radius` of it. Alpha stays as it is.
pub fn process_image<F: Fn(&Vec<Sample>) -> Rgb>(
    width: u32,
    height: u32,
    data: &mut [u8],
    params: &BlurParams,
    mean: F,
)
    requires
        old(data)@.len() == buffer_len(width as int, height as int),
        takes_any_samples(mean),
    ensures
        blurred(
            mean,
            old(data)@,
            final(data)@,
            width as int,
            height as int,
            params.radius as int,
            params.iterations as int,
        ),
        final(data)@.len() == old(data)@.len(),
        alpha_kept(old(data)@, final(data)@, width as int, height as int),
        params.iterations == 0 ==> final(data)@ == old(data)@,
{
    let ghost before = data@;
    let ghost mut stages: Seq<Seq<u8>> = seq![before];
    let mut done: u32 = 0;
    while done < params.iterations
        invariant
            done <= params.iterations,
            takes_any_samples(mean),
            data@.len() == buffer_len(width as int, height as int),
            stages.len() == done + 1,
            stages[0] == before,
            stages[done as int] == data@,
            forall|n: int|
                0 <= n < done ==> pass_made(
                    mean,
                    #[trigger] stages[n],
                    stages[n + 1],
                    width as int,
                    height as int,
                    params.radius as int,
                ),
        decreases params.iterations - done,
    {
        let snapshot: Vec<u8> = slice_to_vec(data);
        blur_pass(width, height, snapshot.as_slice(), data, params.radius, &mean);
        proof {
            let ghost earlier = stages;
            stages = stages.push(data@);
            assert forall|n: int| 0 <= n < done + 1 implies pass_made(
                mean,
                #[trigger] stages[n],
                stages[n + 1],
                width as int,
                height as int,
                params.radius as int,
            ) by {
                if n < done {
                    assert(stages[n] == earlier[n]);
                    assert(stages[n + 1] == earlier[n + 1]);
                }
            }
        }
        done = done + 1;
    }
    proof {
        assert(stages[params.iterations as int] == data@);
        lemma_blur_keeps_alpha(
            mean,
            before,
            data@,
            width as int,
            height as int,
            params.radius as int,
            params.iterations as int,
        );
    }
}

} // verus!
