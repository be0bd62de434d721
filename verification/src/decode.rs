//! Decoding: from the bytes of a container to the image it holds.

use crate::bitmap::{Bitmap, Raster};
use crate::container::{
    container, inflated_pixels, le_bytes, lemma_le_round_trip, magic, parsed_header,
    read_filtered_bytes, read_filters, read_header, HEADER_LEN,
};
use crate::error::{outcome, DecodeError};
use crate::filter_laws::{
    lemma_filtered_image_len, lemma_unfilter_image, lemma_unfiltered_rows_len,
};
use crate::filters::{filter_tags, filtered_image, remove_filters, unfiltered_image};
use crate::zlib::zlib_inflated;
use vstd::prelude::*;

verus! {

/// What the parts of a container decode to: the image rebuilt from the tags
/// and from the rows that the pixel stream inflates to.
pub open spec fn decoded_parts(width: u32, height: u32, tags: Seq<u8>, stream: Seq<u8>) -> Result<
    Raster,
    DecodeError,
> {
    match inflated_pixels(stream, width, height) {
        None => Err(DecodeError::CorruptStream),
        Some(pixels) => unfiltered_image(width, height, tags, pixels),
    }
}

/// What a byte string decodes to: the image it holds, or the first thing
/// wrong with it, in the order in which a reader meets them: the magic, the
/// rest of the header, the filter tags, the pixel stream, and last the
/// filter tags' values.
pub open spec fn decoded(bytes: Seq<u8>) -> Result<Raster, DecodeError> {
    match parsed_header(bytes) {
        Err(e) => Err(e),
        Ok((width, height)) => {
            if bytes.len() < 12 + height {
                Err(DecodeError::UnexpectedEnd)
            } else {
                decoded_parts(
                    width,
                    height,
                    bytes.subrange(12, 12 + height),
                    bytes.subrange(12 + height, bytes.len() as int),
                )
            }
        },
    }
}

/// Decodes a container: reads the header and the filter tags, inflates the
/// pixel stream to `width * height * 4` bytes, and rebuilds the rows.
pub fn decode(bytes: &[u8]) -> (r: Result<Bitmap, DecodeError>)
    ensures
        outcome(r) == decoded(bytes@),
        r matches Ok(b) ==> b@.wf(),
{
    let (width, height) = match read_header(bytes) {
        Ok(dims) => dims,
        Err(e) => {
            return Err(e);
        },
    };
    let rest = &bytes[HEADER_LEN..bytes.len()];
    let filters = match read_filters(rest, height) {
        Ok(tags) => tags,
        Err(e) => {
            return Err(e);
        },
    };
    let stream = &rest[height as usize..rest.len()];
    proof {
        assert(filters@ =~= bytes@.subrange(12, 12 + height));
        assert(stream@ =~= bytes@.subrange(12 + height, bytes@.len() as int));
    }
    let filtered_bytes = match read_filtered_bytes(stream, height, width) {
        Ok(pixels) => pixels,
        Err(e) => {
            return Err(e);
        },
    };
    remove_filters(width, height, filters.as_slice(), filtered_bytes.as_slice())
}

/// Decoding takes a container apart into the parts it was laid out from.
pub proof fn lemma_decoded_container(width: u32, height: u32, tags: Seq<u8>, stream: Seq<u8>)
    requires
        tags.len() == height,
    ensures
        decoded(container(width, height, tags, stream)) == decoded_parts(
            width,
            height,
            tags,
            stream,
        ),
{
    let bytes = container(width, height, tags, stream);
    lemma_le_round_trip(width);
    lemma_le_round_trip(height);
    assert(bytes.subrange(0, 4) =~= magic());
    assert(bytes.subrange(4, 8) =~= le_bytes(width));
    assert(bytes.subrange(8, 12) =~= le_bytes(height));
    assert(parsed_header(bytes) == Ok::<(u32, u32), DecodeError>((width, height)));
    assert(bytes.subrange(12, 12 + height) =~= tags);
    assert(bytes.subrange(12 + height, bytes.len() as int) =~= stream);
}

/// A container laid out around an image's tags and a stream that inflates to
/// its filtered rows decodes to that image.
pub proof fn lemma_round_trip(img: Raster, stream: Seq<u8>)
    requires
        img.wf(),
        zlib_inflated(stream, img.data.len()) == Some(filtered_image(img)),
    ensures
        decoded(container(img.width, img.height, filter_tags(img), stream)) == Ok::<
            Raster,
            DecodeError,
        >(img),
{
    lemma_decoded_container(img.width, img.height, filter_tags(img), stream);
    lemma_filtered_image_len(img);
    assert(inflated_pixels(stream, img.width, img.height) == Some(filtered_image(img)));
    lemma_unfilter_image(img);
}

/// Input whose first four bytes are not the magic constant is refused with
/// an error of format, whatever follows.
pub proof fn lemma_bad_magic_rejected(bytes: Seq<u8>)
    requires
        bytes.len() >= 4,
        bytes.subrange(0, 4) != magic(),
    ensures
        decoded(bytes) == Err::<Raster, DecodeError>(DecodeError::InvalidMagic),
        DecodeError::InvalidMagic.of_format(),
{
}

/// Changing any byte of the magic of a container makes it undecodable.
pub proof fn lemma_flipped_magic_rejected(
    width: u32,
    height: u32,
    tags: Seq<u8>,
    stream: Seq<u8>,
    i: int,
    byte: u8,
)
    requires
        0 <= i < 4,
        byte != magic()[i],
    ensures
        decoded(container(width, height, tags, stream).update(i, byte)) == Err::<
            Raster,
            DecodeError,
        >(DecodeError::InvalidMagic),
{
    let flipped = container(width, height, tags, stream).update(i, byte);
    assert(flipped.subrange(0, 4)[i] == byte);
}

/// A container cut short is refused, unless what is left of its pixel stream
/// still inflates to every pixel: cut before the pixel stream, the input
/// ends unexpectedly; cut inside it, the outcome is that of the shorter
/// stream.
pub proof fn lemma_truncated_container(
    width: u32,
    height: u32,
    tags: Seq<u8>,
    stream: Seq<u8>,
    n: int,
)
    requires
        tags.len() == height,
        0 <= n <= 12 + height + stream.len(),
    ensures
        n < 12 + height ==> decoded(container(width, height, tags, stream).take(n)) == Err::<
            Raster,
            DecodeError,
        >(DecodeError::UnexpectedEnd),
        n >= 12 + height ==> decoded(container(width, height, tags, stream).take(n))
            == decoded_parts(width, height, tags, stream.take(n - 12 - height)),
{
    let whole = container(width, height, tags, stream);
    let cut = whole.take(n);
    lemma_le_round_trip(width);
    lemma_le_round_trip(height);
    if n >= 12 + height {
        assert(cut =~= container(width, height, tags, stream.take(n - 12 - height)));
        lemma_decoded_container(width, height, tags, stream.take(n - 12 - height));
    } else if n >= 4 {
        assert(cut.subrange(0, 4) =~= magic());
        if n >= 12 {
            assert(cut.subrange(4, 8) =~= le_bytes(width));
            assert(cut.subrange(8, 12) =~= le_bytes(height));
        }
    }
}

/// Whatever decodes holds exactly the pixels that its header announces.
pub proof fn lemma_decoded_is_whole(bytes: Seq<u8>)
    ensures
        decoded(bytes) matches Ok(img) ==> img.wf() && parsed_header(bytes) == Ok::<
            (u32, u32),
            DecodeError,
        >((img.width, img.height)),
{
    if decoded(bytes) is Ok {
        let dims = parsed_header(bytes)->Ok_0;
        let tags = bytes.subrange(12, 12 + dims.1);
        let stream = bytes.subrange(12 + dims.1, bytes.len() as int);
        let pixels = inflated_pixels(stream, dims.0, dims.1)->Some_0;
        lemma_unfiltered_rows_len(dims.0, dims.1, tags, pixels, dims.1 as int);
        assert(dims.1 * (4 * dims.0) == dims.0 * dims.1 * 4) by (nonlinear_arith);
    }
}

} // verus!
