//! What holds of the row filters: every filter can be undone, the choice of
//! filter is the first minimum, missing neighbours count as zero, and an
//! image rebuilt from its filtered rows is the image.

use crate::bitmap::{lemma_row_bounds, Raster};
use crate::error::DecodeError;
use crate::filters::{
    best_among, best_tag, byte_at, filter_tags, filtered, filtered_image, filtered_rows,
    first_unknown, is_first_minimum, predict, prediction, reconstructs, row_tag, score,
    unfiltered, unfiltered_image, unfiltered_rows,
};
use vstd::prelude::*;

verus! {

/// The rebuilt row is as long as the filtered one.
pub proof fn lemma_unfiltered_len(tag: u8, filt: Seq<u8>, prev: Seq<u8>)
    ensures
        unfiltered(tag, filt, prev).len() == filt.len(),
    decreases filt.len(),
{
    if filt.len() > 0 {
        lemma_unfiltered_len(tag, filt.drop_last(), prev);
    }
}

/// Rebuilding a shorter prefix of a filtered row gives a prefix of the
/// rebuilt row.
pub proof fn lemma_unfiltered_prefix(tag: u8, filt: Seq<u8>, prev: Seq<u8>, n: int)
    requires
        0 <= n <= filt.len(),
    ensures
        unfiltered(tag, filt.take(n), prev) == unfiltered(tag, filt, prev).take(n),
    decreases filt.len(),
{
    lemma_unfiltered_len(tag, filt, prev);
    if n == filt.len() {
        assert(filt.take(n) =~= filt);
        assert(unfiltered(tag, filt, prev).take(n) =~= unfiltered(tag, filt, prev));
    } else {
        lemma_unfiltered_prefix(tag, filt.drop_last(), prev, n);
        lemma_unfiltered_len(tag, filt.drop_last(), prev);
        assert(filt.drop_last().take(n) =~= filt.take(n));
        assert(unfiltered(tag, filt, prev).take(n) =~= unfiltered(tag, filt.drop_last(), prev).take(
            n,
        ));
    }
}

/// Byte `i` of the rebuilt row is the filtered byte plus its prediction.
proof fn lemma_unfiltered_at(tag: u8, filt: Seq<u8>, prev: Seq<u8>, i: int)
    requires
        0 <= i < filt.len(),
    ensures
        unfiltered(tag, filt, prev)[i] == filt[i].wrapping_add(
            prediction(tag, unfiltered(tag, filt, prev), prev, i),
        ),
{
    let out = unfiltered(tag, filt, prev);
    let part = filt.take(i + 1);
    lemma_unfiltered_prefix(tag, filt, prev, i + 1);
    lemma_unfiltered_prefix(tag, filt, prev, i);
    lemma_unfiltered_len(tag, filt, prev);
    assert(part.drop_last() =~= filt.take(i));
    let head = unfiltered(tag, part.drop_last(), prev);
    assert(head == out.take(i));
    assert(unfiltered(tag, part, prev) == head.push(
        part.last().wrapping_add(prediction(tag, head, prev, i)),
    ));
    assert(out.take(i + 1)[i] == out[i]);
    assert(byte_at(head, i - 4) == byte_at(out, i - 4));
}

/// A row that satisfies the defining equation agrees with the rebuilt row
/// on its first `n` bytes.
proof fn lemma_reconstruction_unique(
    tag: u8,
    filt: Seq<u8>,
    prev: Seq<u8>,
    row: Seq<u8>,
    n: int,
)
    requires
        reconstructs(tag, filt, prev, row),
        0 <= n <= filt.len(),
    ensures
        row.take(n) == unfiltered(tag, filt.take(n), prev),
    decreases n,
{
    if n == 0 {
        assert(row.take(0) =~= Seq::<u8>::empty());
        assert(filt.take(0).len() == 0);
    } else {
        lemma_reconstruction_unique(tag, filt, prev, row, n - 1);
        let part = filt.take(n);
        assert(part.drop_last() =~= filt.take(n - 1));
        let head = unfiltered(tag, part.drop_last(), prev);
        assert(head == row.take(n - 1));
        assert(byte_at(head, n - 1 - 4) == byte_at(row, n - 1 - 4));
        assert(row.take(n) =~= head.push(
            part.last().wrapping_add(prediction(tag, head, prev, n - 1)),
        ));
    }
}

/// The rebuilt row satisfies the defining equation at every byte, and is the
/// only row that does.
pub proof fn lemma_unfiltered_reconstructs(tag: u8, filt: Seq<u8>, prev: Seq<u8>)
    ensures
        reconstructs(tag, filt, prev, unfiltered(tag, filt, prev)),
        forall|row: Seq<u8>| #[trigger]
            reconstructs(tag, filt, prev, row) ==> row == unfiltered(tag, filt, prev),
{
    let out = unfiltered(tag, filt, prev);
    lemma_unfiltered_len(tag, filt, prev);
    assert forall|i: int| 0 <= i < filt.len() implies out[i] == filt[i].wrapping_add(
        prediction(tag, out, prev, i),
    ) by {
        lemma_unfiltered_at(tag, filt, prev, i);
    }
    assert forall|row: Seq<u8>| #[trigger]
        reconstructs(tag, filt, prev, row) implies row == out by {
        lemma_reconstruction_unique(tag, filt, prev, row, filt.len() as int);
        assert(row.take(filt.len() as int) =~= row);
        assert(filt.take(filt.len() as int) =~= filt);
    }
}

/// Filtering a row and rebuilding it with the same tag and the same row
/// above gives the row back.
pub proof fn lemma_unfilter_filter(tag: u8, row: Seq<u8>, prev: Seq<u8>)
    ensures
        unfiltered(tag, filtered(tag, row, prev), prev) == row,
{
    let filt = filtered(tag, row, prev);
    assert(reconstructs(tag, filt, prev, row));
    lemma_unfiltered_reconstructs(tag, filt, prev);
}

/// Rebuilding a row and filtering it again with the same tag and the same
/// row above gives the filtered row back.
pub proof fn lemma_filter_unfilter(tag: u8, filt: Seq<u8>, prev: Seq<u8>)
    ensures
        filtered(tag, unfiltered(tag, filt, prev), prev) == filt,
{
    lemma_unfiltered_reconstructs(tag, filt, prev);
    assert(filtered(tag, unfiltered(tag, filt, prev), prev) =~= filt);
}

/// A filter that looks only to the left rebuilds the same row whatever lies
/// above.
pub proof fn lemma_unfiltered_ignores_above(
    tag: u8,
    filt: Seq<u8>,
    above: Seq<u8>,
    other: Seq<u8>,
)
    requires
        tag < 2 || tag > 4,
    ensures
        unfiltered(tag, filt, above) == unfiltered(tag, filt, other),
    decreases filt.len(),
{
    if filt.len() > 0 {
        lemma_unfiltered_ignores_above(tag, filt.drop_last(), above, other);
    }
}

/// A byte of the first pixel has no left and no upper-left neighbour: both
/// count as zero.
pub proof fn lemma_first_pixel_context(tag: u8, row: Seq<u8>, prev: Seq<u8>, i: int)
    requires
        0 <= i < 4,
    ensures
        prediction(tag, row, prev, i) == predict(tag, 0, byte_at(prev, i), 0),
{
}

/// With no row above, the upper and upper-left neighbours of every byte
/// count as zero, just as if the row above held zeros only.
pub proof fn lemma_top_row_context(tag: u8, row: Seq<u8>, zeros: Seq<u8>)
    requires
        forall|i: int| 0 <= i < zeros.len() ==> zeros[i] == 0,
    ensures
        forall|i: int| #[trigger]
            prediction(tag, row, Seq::empty(), i) == predict(tag, byte_at(row, i - 4), 0, 0),
        filtered(tag, row, Seq::empty()) == filtered(tag, row, zeros),
        unfiltered(tag, row, Seq::empty()) == unfiltered(tag, row, zeros),
    decreases row.len(),
{
    assert(filtered(tag, row, Seq::empty()) =~= filtered(tag, row, zeros));
    if row.len() > 0 {
        lemma_top_row_context(tag, row.drop_last(), zeros);
    }
}

/// The best of the filters `0..=n` is the first of them with the least
/// score.
proof fn lemma_best_among(n: u8, row: Seq<u8>, prev: Seq<u8>)
    ensures
        best_among(n, row, prev) <= n,
        forall|t: u8|
            t <= n ==> score(best_among(n, row, prev), row, prev) <= #[trigger] score(
                t,
                row,
                prev,
            ),
        forall|t: u8|
            t < best_among(n, row, prev) ==> score(best_among(n, row, prev), row, prev)
                < #[trigger] score(t, row, prev),
    decreases n,
{
    if n > 0 {
        lemma_best_among((n - 1) as u8, row, prev);
    }
}

/// The chosen filter is the first one with the least score, and no other
/// tag is.
pub proof fn lemma_best_tag_first_minimum(row: Seq<u8>, prev: Seq<u8>)
    ensures
        is_first_minimum(best_tag(row, prev), row, prev),
        forall|t: u8| #[trigger] is_first_minimum(t, row, prev) ==> t == best_tag(row, prev),
{
    lemma_best_among(4, row, prev);
}

/// Of two filters with the same score, the one with the higher tag is not
/// chosen.
pub proof fn lemma_tie_goes_to_lower_tag(row: Seq<u8>, prev: Seq<u8>, low: u8, high: u8)
    requires
        low < high <= 4,
        score(low, row, prev) == score(high, row, prev),
    ensures
        best_tag(row, prev) != high,
{
    lemma_best_tag_first_minimum(row, prev);
}

/// Row boundaries come in the order of the rows.
pub proof fn lemma_row_order(row_len: int, n: int, m: int)
    requires
        0 <= row_len,
        0 <= n <= m,
    ensures
        0 <= n * row_len <= m * row_len,
        n == 0 ==> n * row_len == 0,
{
    assert(0 <= n * row_len <= m * row_len && (n == 0 ==> n * row_len == 0)) by (nonlinear_arith)
        requires
            0 <= row_len,
            0 <= n <= m,
    ;
}

/// The first `n` filtered rows take `n` rows' worth of bytes.
pub proof fn lemma_filtered_rows_len(img: Raster, n: int)
    requires
        img.wf(),
        0 <= n <= img.height,
    ensures
        filtered_rows(img, n).len() == n * img.row_len(),
    decreases n,
{
    if n > 0 {
        lemma_filtered_rows_len(img, n - 1);
        lemma_row_bounds(img.width, img.height, n - 1);
        assert(filtered_rows(img, n).len() == filtered_rows(img, n - 1).len()
            + img.row(n - 1).len());
    } else {
        assert(filtered_rows(img, n).len() == 0);
    }
}

/// The filtered image is as long as the image.
pub proof fn lemma_filtered_image_len(img: Raster)
    requires
        img.wf(),
    ensures
        filtered_image(img).len() == img.data.len(),
{
    lemma_filtered_rows_len(img, img.height as int);
    assert(img.height * img.row_len() == img.width * img.height * 4) by (nonlinear_arith)
        requires
            img.row_len() == 4 * img.width,
    ;
}

/// The filtered rows of an image, cut at a row boundary, are the filtered
/// rows up to that boundary.
pub proof fn lemma_filtered_rows_prefix(img: Raster, n: int, m: int)
    requires
        img.wf(),
        0 <= n <= m <= img.height,
    ensures
        filtered_rows(img, m).subrange(0, n * img.row_len()) == filtered_rows(img, n),
    decreases m,
{
    lemma_filtered_rows_len(img, n);
    lemma_filtered_rows_len(img, m);
    if n == m {
        assert(filtered_rows(img, m).subrange(0, n * img.row_len()) =~= filtered_rows(img, n));
    } else {
        lemma_filtered_rows_prefix(img, n, m - 1);
        lemma_filtered_rows_len(img, m - 1);
        lemma_row_order(img.row_len(), n, m - 1);
        assert(filtered_rows(img, m).subrange(0, n * img.row_len()) =~= filtered_rows(
            img,
            m - 1,
        ).subrange(0, n * img.row_len()));
    }
}

/// Row `y` of the filtered image is row `y` of the image, filtered with its
/// chosen filter.
pub proof fn lemma_filtered_image_row(img: Raster, y: int)
    requires
        img.wf(),
        0 <= y < img.height,
    ensures
        filtered_image(img).subrange(y * img.row_len(), (y + 1) * img.row_len()) == filtered(
            row_tag(img, y),
            img.row(y),
            img.above(y),
        ),
{
    let rl = img.row_len();
    lemma_filtered_rows_prefix(img, y + 1, img.height as int);
    lemma_filtered_rows_len(img, y);
    lemma_filtered_rows_len(img, y + 1);
    lemma_filtered_rows_len(img, img.height as int);
    lemma_row_bounds(img.width, img.height, y);
    lemma_row_order(rl, y + 1, img.height as int);
    let upto = filtered_rows(img, y + 1);
    let row = filtered(row_tag(img, y), img.row(y), img.above(y));
    assert(upto == filtered_rows(img, y) + row);
    assert(upto.subrange(y * rl, (y + 1) * rl) =~= row);
    assert(filtered_image(img).subrange(y * rl, (y + 1) * rl) =~= upto.subrange(
        y * rl,
        (y + 1) * rl,
    ));
}

/// The top row of an image is filtered with nothing above it.
pub proof fn lemma_top_row_filtered(img: Raster)
    requires
        img.wf(),
        img.height > 0,
    ensures
        filter_tags(img)[0] == best_tag(img.row(0), Seq::empty()),
        filtered_image(img).subrange(0, img.row_len()) == filtered(
            filter_tags(img)[0],
            img.row(0),
            Seq::empty(),
        ),
{
    lemma_filtered_image_row(img, 0);
}

/// `first_unknown` is the least index of a tag above 4, and the number of
/// tags exactly when there is none.
pub proof fn lemma_first_unknown(tags: Seq<u8>)
    ensures
        0 <= first_unknown(tags) <= tags.len(),
        forall|k: int| 0 <= k < first_unknown(tags) ==> tags[k] <= 4,
        first_unknown(tags) < tags.len() ==> tags[first_unknown(tags)] > 4,
    decreases tags.len(),
{
    if tags.len() > 0 {
        lemma_first_unknown(tags.drop_last());
        assert forall|k: int| 0 <= k < first_unknown(tags) implies tags[k] <= 4 by {
            if k < tags.len() - 1 {
                assert(tags[k] == tags.drop_last()[k]);
            }
        }
    }
}

/// The first `n` rebuilt rows take `n` rows' worth of bytes.
pub proof fn lemma_unfiltered_rows_len(width: u32, height: u32, tags: Seq<u8>, filt: Seq<u8>, n: int)
    requires
        filt.len() == width * height * 4,
        0 <= n <= height,
    ensures
        unfiltered_rows(4 * width, tags, filt, n).len() == n * (4 * width),
    decreases n,
{
    if n > 0 {
        lemma_unfiltered_rows_len(width, height, tags, filt, n - 1);
        lemma_row_bounds(width, height, n - 1);
        let row_len = 4 * width;
        let head = unfiltered_rows(row_len, tags, filt, n - 1);
        let prev = if n == 1 {
            Seq::empty()
        } else {
            head.subrange((n - 2) * row_len, (n - 1) * row_len)
        };
        let raw = filt.subrange((n - 1) * row_len, n * row_len);
        lemma_unfiltered_len(tags[n - 1], raw, prev);
        assert(unfiltered_rows(row_len, tags, filt, n).len() == head.len() + raw.len());
    } else {
        assert(unfiltered_rows(4 * width, tags, filt, n).len() == 0);
    }
}

/// The top row of a rebuilt image is rebuilt with nothing above it.
pub proof fn lemma_top_row_unfiltered(width: u32, height: u32, tags: Seq<u8>, filt: Seq<u8>)
    requires
        tags.len() == height,
        filt.len() == width * height * 4,
        height > 0,
    ensures
        unfiltered_image(width, height, tags, filt) matches Ok(img) ==> img.row(0) == unfiltered(
            tags[0],
            filt.subrange(0, 4 * width),
            Seq::empty(),
        ),
{
    lemma_unfiltered_image_row(width, height, tags, filt, 0);
}

/// The rebuilt rows, cut at a row boundary, are the rebuilt rows up to that
/// boundary.
pub proof fn lemma_unfiltered_rows_prefix(
    width: u32,
    height: u32,
    tags: Seq<u8>,
    filt: Seq<u8>,
    n: int,
    m: int,
)
    requires
        filt.len() == width * height * 4,
        0 <= n <= m <= height,
    ensures
        unfiltered_rows(4 * width, tags, filt, m).subrange(0, n * (4 * width)) == unfiltered_rows(
            4 * width,
            tags,
            filt,
            n,
        ),
    decreases m,
{
    let rl = 4 * width;
    lemma_unfiltered_rows_len(width, height, tags, filt, n);
    lemma_unfiltered_rows_len(width, height, tags, filt, m);
    if n == m {
        assert(unfiltered_rows(rl, tags, filt, m).subrange(0, n * rl) =~= unfiltered_rows(
            rl,
            tags,
            filt,
            n,
        ));
    } else {
        lemma_unfiltered_rows_prefix(width, height, tags, filt, n, m - 1);
        lemma_unfiltered_rows_len(width, height, tags, filt, m - 1);
        lemma_row_order(rl, n, m - 1);
        assert(unfiltered_rows(rl, tags, filt, m).subrange(0, n * rl) =~= unfiltered_rows(
            rl,
            tags,
            filt,
            m - 1,
        ).subrange(0, n * rl));
    }
}

/// Row `y` of a rebuilt image is its filtered row, rebuilt with its tag and
/// with the rebuilt row above it; the top row is rebuilt with nothing above.
pub proof fn lemma_unfiltered_image_row(
    width: u32,
    height: u32,
    tags: Seq<u8>,
    filt: Seq<u8>,
    y: int,
)
    requires
        tags.len() == height,
        filt.len() == width * height * 4,
        0 <= y < height,
    ensures
        unfiltered_image(width, height, tags, filt) matches Ok(img) ==> img.row(y) == unfiltered(
            tags[y],
            (Raster { width, height, data: filt }).row(y),
            img.above(y),
        ),
{
    if unfiltered_image(width, height, tags, filt) is Ok {
        let rl = 4 * width;
        let img = unfiltered_image(width, height, tags, filt)->Ok_0;
        lemma_unfiltered_rows_prefix(width, height, tags, filt, y + 1, height as int);
        lemma_unfiltered_rows_prefix(width, height, tags, filt, y, height as int);
        lemma_unfiltered_rows_len(width, height, tags, filt, y);
        lemma_unfiltered_rows_len(width, height, tags, filt, y + 1);
        lemma_unfiltered_rows_len(width, height, tags, filt, height as int);
        lemma_row_bounds(width, height, y);
        lemma_row_order(rl, y + 1, height as int);
        let upto = unfiltered_rows(rl, tags, filt, y + 1);
        let head = unfiltered_rows(rl, tags, filt, y);
        let prev = if y == 0 {
            Seq::empty()
        } else {
            head.subrange((y - 1) * rl, y * rl)
        };
        let row = unfiltered(tags[y], filt.subrange(y * rl, (y + 1) * rl), prev);
        assert(upto == head + row);
        lemma_unfiltered_len(tags[y], filt.subrange(y * rl, (y + 1) * rl), prev);
        assert(img.data.subrange(0, (y + 1) * rl) == upto);
        assert(img.row(y) =~= upto.subrange(y * rl, (y + 1) * rl));
        assert(upto.subrange(y * rl, (y + 1) * rl) =~= row);
        if y > 0 {
            lemma_row_bounds(width, height, y - 1);
            assert(img.data.subrange(0, y * rl) == head);
            assert(img.above(y) =~= prev);
        }
    }
}

/// The first `n` rows rebuilt from an image's tags and filtered rows are
/// its first `n` rows.
proof fn lemma_unfilter_rows(img: Raster, n: int)
    requires
        img.wf(),
        0 <= n <= img.height,
    ensures
        unfiltered_rows(img.row_len(), filter_tags(img), filtered_image(img), n)
            == img.data.subrange(0, n * img.row_len()),
    decreases n,
{
    let rl = img.row_len();
    let tags = filter_tags(img);
    let filt = filtered_image(img);
    if n <= 0 {
        lemma_row_order(rl, n, n);
        assert(unfiltered_rows(rl, tags, filt, n) =~= img.data.subrange(0, n * rl));
    } else {
        lemma_unfilter_rows(img, n - 1);
        lemma_row_bounds(img.width, img.height, n - 1);
        lemma_filtered_image_row(img, n - 1);
        let head = unfiltered_rows(rl, tags, filt, n - 1);
        let prev = if n == 1 {
            Seq::empty()
        } else {
            head.subrange((n - 2) * rl, (n - 1) * rl)
        };
        if n > 1 {
            lemma_row_bounds(img.width, img.height, n - 2);
            assert(prev =~= img.row(n - 2));
        }
        assert(prev == img.above(n - 1));
        lemma_unfilter_filter(row_tag(img, n - 1), img.row(n - 1), img.above(n - 1));
        assert(unfiltered_rows(rl, tags, filt, n) == head + img.row(n - 1));
        assert(head + img.row(n - 1) =~= img.data.subrange(0, n * rl));
    }
}

/// Filtering an image and rebuilding it from the tags and the filtered rows
/// gives the image back.
pub proof fn lemma_unfilter_image(img: Raster)
    requires
        img.wf(),
    ensures
        unfiltered_image(img.width, img.height, filter_tags(img), filtered_image(img)) == Ok::<
            Raster,
            DecodeError,
        >(img),
{
    let tags = filter_tags(img);
    lemma_first_unknown(tags);
    if first_unknown(tags) < tags.len() {
        let y = first_unknown(tags);
        lemma_best_tag_first_minimum(img.row(y), img.above(y));
        assert(tags[y] == row_tag(img, y));
    }
    lemma_unfilter_rows(img, img.height as int);
    assert(img.height * img.row_len() == img.width * img.height * 4) by (nonlinear_arith)
        requires
            img.row_len() == 4 * img.width,
    ;
    assert(img.data.subrange(0, img.height * img.row_len()) =~= img.data);
}

} // verus!
