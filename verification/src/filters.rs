//! Row filters: the five predictors, their inverses, and the choice of the
//! best one for each row of an image.

use crate::bitmap::{lemma_row_bounds, Bitmap, Raster};
use crate::error::{outcome, DecodeError};
use crate::filter_laws::{
    lemma_first_unknown, lemma_unfiltered_ignores_above, lemma_unfiltered_len,
    lemma_unfiltered_reconstructs,
};
use vstd::prelude::*;
use vstd::slice::slice_to_vec;

verus! {

/// Bytes per pixel, which is also the distance between a byte and its left
/// neighbour of the same channel.
pub const CHANNELS: usize = 4;

/// The byte of `row` at `i`, or 0 where the row has no such byte.
pub open spec fn byte_at(row: Seq<u8>, i: int) -> u8 {
    if 0 <= i < row.len() {
        row[i]
    } else {
        0
    }
}

/// The bytes of an optional previous row; a missing row has none.
pub open spec fn context(prev: Option<&[u8]>) -> Seq<u8> {
    match prev {
        Some(p) => p@,
        None => Seq::empty(),
    }
}

/// Distance between two integers.
pub open spec fn distance(x: int, y: int) -> int {
    if x <= y {
        y - x
    } else {
        x - y
    }
}

/// The Paeth predictor: whichever of left `a`, above `b` and above-left `c`
/// lies nearest to `a + b - c`, preferring `a`, then `b`, on ties.
pub open spec fn paeth(a: u8, b: u8, c: u8) -> u8 {
    let p = a + b - c;
    let pa = distance(p, a as int);
    let pb = distance(p, b as int);
    let pc = distance(p, c as int);
    if pa <= pb && pa <= pc {
        a
    } else if pb <= pc {
        b
    } else {
        c
    }
}

/// What filter `tag` predicts for a byte with left neighbour `a`, upper
/// neighbour `b` and upper-left neighbour `c`.
pub open spec fn predict(tag: u8, a: u8, b: u8, c: u8) -> u8 {
    if tag == 1 {
        a
    } else if tag == 2 {
        b
    } else if tag == 3 {
        ((a + b) / 2) as u8
    } else if tag == 4 {
        paeth(a, b, c)
    } else {
        0
    }
}

/// The prediction of filter `tag` for byte `i` of `row`, with `prev` the row
/// above (empty for the top row).
pub open spec fn prediction(tag: u8, row: Seq<u8>, prev: Seq<u8>, i: int) -> u8 {
    predict(tag, byte_at(row, i - 4), byte_at(prev, i), byte_at(prev, i - 4))
}

/// The row that filter `tag` makes of `row`: each byte less its prediction,
/// modulo 256.
pub open spec fn filtered(tag: u8, row: Seq<u8>, prev: Seq<u8>) -> Seq<u8> {
    Seq::new(row.len(), |i: int| row[i].wrapping_sub(prediction(tag, row, prev, i)))
}

/// The row that filter `tag` turned into `filt`, rebuilt left to right: each
/// byte is the filtered byte plus the prediction from the bytes already
/// rebuilt and from `prev`, modulo 256.
pub open spec fn unfiltered(tag: u8, filt: Seq<u8>, prev: Seq<u8>) -> Seq<u8>
    decreases filt.len(),
{
    if filt.len() == 0 {
        Seq::empty()
    } else {
        let head = unfiltered(tag, filt.drop_last(), prev);
        head.push(filt.last().wrapping_add(prediction(tag, head, prev, filt.len() - 1)))
    }
}

/// `row` is a row that filter `tag` turns into `filt`.
pub open spec fn reconstructs(tag: u8, filt: Seq<u8>, prev: Seq<u8>, row: Seq<u8>) -> bool {
    &&& row.len() == filt.len()
    &&& forall|i: int|
        0 <= i < filt.len() ==> row[i] == filt[i].wrapping_add(prediction(tag, row, prev, i))
}

/// The sum of the bytes of `s`, each counted as a number from 0 to 255.
pub open spec fn byte_sum(s: Seq<u8>) -> int
    decreases s.len(),
{
    if s.len() == 0 {
        0
    } else {
        byte_sum(s.drop_last()) + s.last()
    }
}

/// The score of filter `tag` on a row: the byte sum of the filtered row.
pub open spec fn score(tag: u8, row: Seq<u8>, prev: Seq<u8>) -> int {
    byte_sum(filtered(tag, row, prev))
}

/// The best of the filters `0..=n`: the first one with the least score.
pub open spec fn best_among(n: u8, row: Seq<u8>, prev: Seq<u8>) -> u8
    decreases n,
{
    if n == 0 {
        0
    } else {
        let b = best_among((n - 1) as u8, row, prev);
        if score(n, row, prev) < score(b, row, prev) {
            n
        } else {
            b
        }
    }
}

/// The filter chosen for a row: of the five, the one with the least score,
/// and of several with the least score the one with the lowest tag.
pub open spec fn best_tag(row: Seq<u8>, prev: Seq<u8>) -> u8 {
    best_among(4, row, prev)
}

/// `tag` names a filter whose score no filter undercuts and no filter with a
/// lower tag equals.
pub open spec fn is_first_minimum(tag: u8, row: Seq<u8>, prev: Seq<u8>) -> bool {
    &&& tag <= 4
    &&& forall|t: u8| t <= 4 ==> score(tag, row, prev) <= #[trigger] score(t, row, prev)
    &&& forall|t: u8| t < tag ==> score(tag, row, prev) < #[trigger] score(t, row, prev)
}

/// The filter chosen for row `y` of an image: the best for that row, with
/// the unfiltered row above it as context.
pub open spec fn row_tag(img: Raster, y: int) -> u8 {
    best_tag(img.row(y), img.above(y))
}

/// The filter tags of an image, one per row, top row first.
pub open spec fn filter_tags(img: Raster) -> Seq<u8> {
    Seq::new(img.height as nat, |y: int| row_tag(img, y))
}

/// The first `n` rows of an image, each filtered with its chosen filter, one
/// after another.
pub open spec fn filtered_rows(img: Raster, n: int) -> Seq<u8>
    decreases n,
{
    if n <= 0 {
        Seq::empty()
    } else {
        filtered_rows(img, n - 1) + filtered(row_tag(img, n - 1), img.row(n - 1), img.above(n - 1))
    }
}

/// All rows of an image, filtered and concatenated.
pub open spec fn filtered_image(img: Raster) -> Seq<u8> {
    filtered_rows(img, img.height as int)
}

/// The index of the first tag that names no filter, or the number of tags
/// if every one names a filter.
pub open spec fn first_unknown(tags: Seq<u8>) -> int
    decreases tags.len(),
{
    if tags.len() == 0 {
        0
    } else {
        let k = first_unknown(tags.drop_last());
        if k < tags.len() - 1 {
            k
        } else if tags.last() > 4 {
            tags.len() - 1
        } else {
            tags.len() as int
        }
    }
}

/// The first `n` rows rebuilt from tags and filtered rows, one after another:
/// each row is rebuilt with its tag and with the rebuilt row above it.
pub open spec fn unfiltered_rows(row_len: int, tags: Seq<u8>, filt: Seq<u8>, n: int) -> Seq<u8>
    decreases n,
{
    if n <= 0 {
        Seq::empty()
    } else {
        let head = unfiltered_rows(row_len, tags, filt, n - 1);
        let prev = if n == 1 {
            Seq::empty()
        } else {
            head.subrange((n - 2) * row_len, (n - 1) * row_len)
        };
        head + unfiltered(tags[n - 1], filt.subrange((n - 1) * row_len, n * row_len), prev)
    }
}

/// What rebuilding a `width` by `height` image from `tags` and the filtered
/// rows `filt` gives: the image, or the first tag that names no filter.
pub open spec fn unfiltered_image(width: u32, height: u32, tags: Seq<u8>, filt: Seq<u8>) -> Result<
    Raster,
    DecodeError,
> {
    let bad = first_unknown(tags);
    if bad < tags.len() {
        Err(DecodeError::UnknownFilter { row: bad as u32, tag: tags[bad] })
    } else {
        Ok(Raster { width, height, data: unfiltered_rows(4 * width, tags, filt, height as int) })
    }
}

/// The byte at `i` of an optional row; 0 where there is no row or the row
/// has no such byte.
pub fn get_byte(row: Option<&[u8]>, i: usize) -> (b: u8)
    ensures
        b == byte_at(context(row), i as int),
{
    match row {
        Some(r) => if i < r.len() {
            r[i]
        } else {
            0
        },
        None => 0,
    }
}

/// Computes the Paeth predictor of three neighbouring bytes.
pub fn paeth_predictor(a: u8, b: u8, c: u8) -> (r: u8)
    ensures
        r == paeth(a, b, c),
{
    let p: i32 = a as i32 + b as i32 - c as i32;
    let pa: i32 = if p >= a as i32 { p - a as i32 } else { a as i32 - p };
    let pb: i32 = if p >= b as i32 { p - b as i32 } else { b as i32 - p };
    let pc: i32 = if p >= c as i32 { p - c as i32 } else { c as i32 - p };
    if pa <= pb && pa <= pc {
        a
    } else if pb <= pc {
        b
    } else {
        c
    }
}

/// Filter 0: the row itself.
pub fn none_filter(curr: &[u8], _prev: Option<&[u8]>) -> (out: Vec<u8>)
    ensures
        out@ == curr@,
        out@ == filtered(0, curr@, context(_prev)),
{
    let out = slice_to_vec(curr);
    out
}

/// Filter 1: each byte less the byte one pixel to its left.
pub fn sub_filter(curr: &[u8], _prev: Option<&[u8]>) -> (out: Vec<u8>)
    ensures
        out@ == filtered(1, curr@, context(_prev)),
{
    let mut out: Vec<u8> = Vec::with_capacity(curr.len());
    for i in 0..curr.len()
        invariant
            out@.len() == i,
            forall|j: int|
                0 <= j < i ==> out@[j] == curr@[j].wrapping_sub(
                    prediction(1, curr@, context(_prev), j),
                ),
    {
        let a: u8 = if i >= CHANNELS { curr[i - CHANNELS] } else { 0 };
        out.push(curr[i].wrapping_sub(a));
    }
    out
}

/// Filter 2: each byte less the byte above it.
pub fn up_filter(curr: &[u8], prev: Option<&[u8]>) -> (out: Vec<u8>)
    ensures
        out@ == filtered(2, curr@, context(prev)),
{
    let mut out: Vec<u8> = Vec::with_capacity(curr.len());
    for i in 0..curr.len()
        invariant
            out@.len() == i,
            forall|j: int|
                0 <= j < i ==> out@[j] == curr@[j].wrapping_sub(
                    prediction(2, curr@, context(prev), j),
                ),
    {
        let b: u8 = get_byte(prev, i);
        out.push(curr[i].wrapping_sub(b));
    }
    out
}

/// Filter 3: each byte less the rounded-down mean of its left and upper
/// neighbours.
pub fn average_filter(curr: &[u8], prev: Option<&[u8]>) -> (out: Vec<u8>)
    ensures
        out@ == filtered(3, curr@, context(prev)),
{
    let mut out: Vec<u8> = Vec::with_capacity(curr.len());
    for i in 0..curr.len()
        invariant
            out@.len() == i,
            forall|j: int|
                0 <= j < i ==> out@[j] == curr@[j].wrapping_sub(
                    prediction(3, curr@, context(prev), j),
                ),
    {
        let a: u8 = if i >= CHANNELS { curr[i - CHANNELS] } else { 0 };
        let b: u8 = get_byte(prev, i);
        let avg: u8 = ((a as u16 + b as u16) / 2) as u8;
        out.push(curr[i].wrapping_sub(avg));
    }
    out
}

/// Filter 4: each byte less the Paeth predictor of its left, upper and
/// upper-left neighbours.
pub fn paeth_filter(curr: &[u8], prev: Option<&[u8]>) -> (out: Vec<u8>)
    ensures
        out@ == filtered(4, curr@, context(prev)),
{
    let mut out: Vec<u8> = Vec::with_capacity(curr.len());
    for i in 0..curr.len()
        invariant
            out@.len() == i,
            forall|j: int|
                0 <= j < i ==> out@[j] == curr@[j].wrapping_sub(
                    prediction(4, curr@, context(prev), j),
                ),
    {
        let a: u8 = if i >= CHANNELS { curr[i - CHANNELS] } else { 0 };
        let b: u8 = get_byte(prev, i);
        let c: u8 = if i >= CHANNELS { get_byte(prev, i - CHANNELS) } else { 0 };
        out.push(curr[i].wrapping_sub(paeth_predictor(a, b, c)));
    }
    out
}

/// Adds up the bytes of a row.
pub fn row_sum(row: &[u8]) -> (sum: u128)
    ensures
        sum == byte_sum(row@),
{
    let mut sum: u128 = 0;
    for i in 0..row.len()
        invariant
            sum == byte_sum(row@.take(i as int)),
            sum <= 255 * i,
    {
        proof {
            assert(row@.take(i + 1).drop_last() =~= row@.take(i as int));
        }
        sum = sum + row[i] as u128;
    }
    proof {
        assert(row@.take(row@.len() as int) =~= row@);
    }
    sum
}

/// Filters a row with each of the five filters and keeps the one with the
/// least byte sum, the lowest tag winning a tie.
pub fn best_filter(curr: &[u8], prev: Option<&[u8]>) -> (r: (u8, Vec<u8>))
    ensures
        r.0 == best_tag(curr@, context(prev)),
        r.1@ == filtered(r.0, curr@, context(prev)),
{
    let mut best_idx: u8 = 0;
    let mut best_row = none_filter(curr, prev);
    let mut best_sum = row_sum(best_row.as_slice());
    assert(best_idx == best_among(0, curr@, context(prev)));

    let row = sub_filter(curr, prev);
    let sum = row_sum(row.as_slice());
    if sum < best_sum {
        best_idx = 1;
        best_row = row;
        best_sum = sum;
    }
    assert(best_idx == best_among(1, curr@, context(prev)));

    let row = up_filter(curr, prev);
    let sum = row_sum(row.as_slice());
    if sum < best_sum {
        best_idx = 2;
        best_row = row;
        best_sum = sum;
    }
    assert(best_idx == best_among(2, curr@, context(prev)));

    let row = average_filter(curr, prev);
    let sum = row_sum(row.as_slice());
    if sum < best_sum {
        best_idx = 3;
        best_row = row;
        best_sum = sum;
    }
    assert(best_idx == best_among(3, curr@, context(prev)));

    let row = paeth_filter(curr, prev);
    let sum = row_sum(row.as_slice());
    if sum < best_sum {
        best_idx = 4;
        best_row = row;
    }
    assert(best_idx == best_among(4, curr@, context(prev)));

    (best_idx, best_row)
}

/// Chooses and applies a filter for every row of an image, top to bottom.
/// Returns the filter tags and the filtered rows, concatenated.
pub fn apply_filters(img: &Bitmap) -> (r: (Vec<u8>, Vec<u8>))
    ensures
        r.0@ == filter_tags(img@),
        r.1@ == filtered_image(img@),
{
    let height = img.height();
    let mut output: Vec<u8> = Vec::with_capacity(img.data().len());
    let mut filters_used: Vec<u8> = Vec::with_capacity(height as usize);
    let mut y: u32 = 0;
    while y < height
        invariant
            height == img@.height,
            0 <= y <= height,
            filters_used@.len() == y,
            forall|k: int| 0 <= k < y ==> filters_used@[k] == row_tag(img@, k),
            output@ == filtered_rows(img@, y as int),
        decreases height - y,
    {
        let row = img.row(y);
        let prev_row: Option<&[u8]> = if y == 0 {
            None
        } else {
            Some(img.row(y - 1))
        };
        let (filter_type, filtered_row) = best_filter(row, prev_row);
        filters_used.push(filter_type);
        output.extend_from_slice(filtered_row.as_slice());
        assert(output@ =~= filtered_rows(img@, y as int) + filtered_row@);
        y = y + 1;
    }
    assert(filters_used@ =~= filter_tags(img@));
    (filters_used, output)
}

/// Inverse of filter 0: the row itself.
pub fn unfilter_none(curr: &[u8]) -> (out: Vec<u8>)
    ensures
        out@ == curr@,
        forall|prev: Seq<u8>| out@ == #[trigger] unfiltered(0, curr@, prev),
{
    let out = slice_to_vec(curr);
    assert forall|prev: Seq<u8>| out@ == #[trigger] unfiltered(0, curr@, prev) by {
        assert(reconstructs(0, curr@, prev, out@));
        lemma_unfiltered_reconstructs(0, curr@, prev);
    }
    out
}

/// Inverse of filter 1: each byte plus the rebuilt byte one pixel to its
/// left.
pub fn unfilter_sub(curr: &[u8]) -> (out: Vec<u8>)
    ensures
        forall|prev: Seq<u8>| out@ == #[trigger] unfiltered(1, curr@, prev),
{
    let ghost none = Seq::<u8>::empty();
    let mut out: Vec<u8> = Vec::with_capacity(curr.len());
    for i in 0..curr.len()
        invariant
            out@ == unfiltered(1, curr@.take(i as int), none),
            out@.len() == i,
    {
        let left: u8 = if i >= CHANNELS { out[i - CHANNELS] } else { 0 };
        proof {
            assert(curr@.take(i + 1).drop_last() =~= curr@.take(i as int));
        }
        out.push(curr[i].wrapping_add(left));
    }
    proof {
        assert(curr@.take(curr@.len() as int) =~= curr@);
        assert forall|prev: Seq<u8>| out@ == #[trigger] unfiltered(1, curr@, prev) by {
            lemma_unfiltered_ignores_above(1, curr@, none, prev);
        }
    }
    out
}

/// Inverse of filter 2: each byte plus the byte above it.
pub fn unfilter_up(curr: &[u8], prev: Option<&[u8]>) -> (out: Vec<u8>)
    ensures
        out@ == unfiltered(2, curr@, context(prev)),
{
    let mut out: Vec<u8> = Vec::with_capacity(curr.len());
    for i in 0..curr.len()
        invariant
            out@ == unfiltered(2, curr@.take(i as int), context(prev)),
            out@.len() == i,
    {
        let up: u8 = get_byte(prev, i);
        proof {
            assert(curr@.take(i + 1).drop_last() =~= curr@.take(i as int));
        }
        out.push(curr[i].wrapping_add(up));
    }
    proof {
        assert(curr@.take(curr@.len() as int) =~= curr@);
    }
    out
}

/// Inverse of filter 3: each byte plus the rounded-down mean of the rebuilt
/// left neighbour and the upper neighbour.
pub fn unfilter_average(curr: &[u8], prev: Option<&[u8]>) -> (out: Vec<u8>)
    ensures
        out@ == unfiltered(3, curr@, context(prev)),
{
    let mut out: Vec<u8> = Vec::with_capacity(curr.len());
    for i in 0..curr.len()
        invariant
            out@ == unfiltered(3, curr@.take(i as int), context(prev)),
            out@.len() == i,
    {
        let left: u8 = if i >= CHANNELS { out[i - CHANNELS] } else { 0 };
        let up: u8 = get_byte(prev, i);
        let avg: u8 = ((left as u16 + up as u16) / 2) as u8;
        proof {
            assert(curr@.take(i + 1).drop_last() =~= curr@.take(i as int));
        }
        out.push(curr[i].wrapping_add(avg));
    }
    proof {
        assert(curr@.take(curr@.len() as int) =~= curr@);
    }
    out
}

/// Inverse of filter 4: each byte plus the Paeth predictor of the rebuilt
/// left neighbour and the upper and upper-left neighbours.
pub fn unfilter_paeth(curr: &[u8], prev: Option<&[u8]>) -> (out: Vec<u8>)
    ensures
        out@ == unfiltered(4, curr@, context(prev)),
{
    let mut out: Vec<u8> = Vec::with_capacity(curr.len());
    for i in 0..curr.len()
        invariant
            out@ == unfiltered(4, curr@.take(i as int), context(prev)),
            out@.len() == i,
    {
        let left: u8 = if i >= CHANNELS { out[i - CHANNELS] } else { 0 };
        let up: u8 = get_byte(prev, i);
        let up_left: u8 = if i >= CHANNELS { get_byte(prev, i - CHANNELS) } else { 0 };
        let paeth: u8 = paeth_predictor(left, up, up_left);
        proof {
            assert(curr@.take(i + 1).drop_last() =~= curr@.take(i as int));
        }
        out.push(curr[i].wrapping_add(paeth));
    }
    proof {
        assert(curr@.take(curr@.len() as int) =~= curr@);
    }
    out
}

/// Rebuilds an image from its filter tags and its filtered rows, top to
/// bottom, each row with the rebuilt row above it as context. Fails at the
/// first row whose tag names no filter.
pub fn remove_filters(width: u32, height: u32, filters: &[u8], filtered_bytes: &[u8]) -> (r:
    Result<Bitmap, DecodeError>)
    requires
        filters@.len() == height,
        filtered_bytes@.len() == width * height * 4,
    ensures
        outcome(r) == unfiltered_image(width, height, filters@, filtered_bytes@),
        r matches Ok(b) ==> b@.wf(),
{
    let mut data: Vec<u8> = Vec::with_capacity(filtered_bytes.len());
    if height == 0 {
        proof {
            lemma_first_unknown(filters@);
            assert(width * height * 4 == 0) by (nonlinear_arith)
                requires
                    height == 0,
            ;
        }
        return Ok(Bitmap::from_parts(width, height, data));
    }
    proof {
        lemma_row_bounds(width, height, 0);
    }
    let row_len: usize = width as usize * 4;
    let mut prev_row: Option<Vec<u8>> = None;
    let mut start: usize = 0;
    let mut y: u32 = 0;
    while y < height
        invariant
            filters@.len() == height,
            filtered_bytes@.len() == width * height * 4,
            filtered_bytes@.len() <= usize::MAX,
            row_len == 4 * width,
            0 <= y <= height,
            start == y * row_len,
            forall|k: int| 0 <= k < y ==> filters@[k] <= 4,
            data@ == unfiltered_rows(row_len as int, filters@, filtered_bytes@, y as int),
            data@.len() == start,
            y == 0 ==> prev_row is None,
            y > 0 ==> (prev_row matches Some(p) && p@ == data@.subrange(
                (y - 1) * row_len,
                y * row_len,
            )),
        decreases height - y,
    {
        proof {
            lemma_row_bounds(width, height, y as int);
        }
        let filter = filters[y as usize];
        let raw_row = &filtered_bytes[start..start + row_len];
        let prev: Option<&[u8]> = match &prev_row {
            Some(p) => Some(p.as_slice()),
            None => None,
        };
        let ghost above = context(prev);
        let row = match filter {
            0 => unfilter_none(raw_row),
            1 => unfilter_sub(raw_row),
            2 => unfilter_up(raw_row, prev),
            3 => unfilter_average(raw_row, prev),
            4 => unfilter_paeth(raw_row, prev),
            _ => {
                proof {
                    lemma_first_unknown(filters@);
                }
                return Err(DecodeError::UnknownFilter { row: y, tag: filter });
            },
        };
        assert(row@ == unfiltered(filter, raw_row@, above));
        proof {
            lemma_unfiltered_len(filter, raw_row@, above);
        }
        data.extend_from_slice(row.as_slice());
        assert(data@ =~= unfiltered_rows(row_len as int, filters@, filtered_bytes@, y as int)
            + row@);
        assert(row@ =~= data@.subrange(y * row_len, (y + 1) * row_len));
        prev_row = Some(row);
        start = start + row_len;
        y = y + 1;
    }
    proof {
        lemma_first_unknown(filters@);
        assert(height * row_len == width * height * 4) by (nonlinear_arith)
            requires
                row_len == 4 * width,
        ;
    }
    Ok(Bitmap::from_parts(width, height, data))
}

} // verus!
