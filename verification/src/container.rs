//! The byte layout of a container: header, filter tags, pixel stream.

use crate::bitmap::pixel_bytes;
use crate::error::DecodeError;
use crate::zlib::{inflate, zlib_inflated};
use vstd::prelude::*;

verus! {

/// Length of the header: magic, width, height.
pub const HEADER_LEN: usize = 12;

/// The magic constant, the letters `RIIF`.
pub const MAGIC: [u8; 4] = [0x52, 0x49, 0x49, 0x46];

/// The magic constant as a byte string.
pub open spec fn magic() -> Seq<u8> {
    MAGIC@
}

/// The four bytes of `x`, least significant first.
pub open spec fn le_bytes(x: u32) -> Seq<u8> {
    seq![
        (x % 256) as u8,
        (x / 256 % 256) as u8,
        (x / 65536 % 256) as u8,
        (x / 16777216) as u8,
    ]
}

/// The number that four bytes spell, least significant first.
pub open spec fn le_value(b: Seq<u8>) -> u32 {
    (b[0] + 256 * b[1] + 65536 * b[2] + 16777216 * b[3]) as u32
}

/// The header of a `width` by `height` image.
pub open spec fn header(width: u32, height: u32) -> Seq<u8> {
    magic() + le_bytes(width) + le_bytes(height)
}

/// A whole container: header, one filter tag per row, compressed pixels.
pub open spec fn container(width: u32, height: u32, tags: Seq<u8>, stream: Seq<u8>) -> Seq<u8> {
    header(width, height) + tags + stream
}

/// What the start of `input` says as a header: the width and height, or why
/// it is no header.
pub open spec fn parsed_header(input: Seq<u8>) -> Result<(u32, u32), DecodeError> {
    if input.len() < 4 {
        Err(DecodeError::UnexpectedEnd)
    } else if input.subrange(0, 4) != magic() {
        Err(DecodeError::InvalidMagic)
    } else if input.len() < 12 {
        Err(DecodeError::UnexpectedEnd)
    } else {
        Ok((le_value(input.subrange(4, 8)), le_value(input.subrange(8, 12))))
    }
}

/// The filtered rows that a pixel stream holds for a `width` by `height`
/// image, if it holds that many bytes.
pub open spec fn inflated_pixels(stream: Seq<u8>, width: u32, height: u32) -> Option<Seq<u8>> {
    let expected = width * height * 4;
    if expected > usize::MAX {
        None
    } else {
        match zlib_inflated(stream, expected as nat) {
            Some(pixels) => if pixels.len() == expected {
                Some(pixels)
            } else {
                None
            },
            None => None,
        }
    }
}

/// Spelling a number as four bytes and reading them back gives the number.
pub proof fn lemma_le_round_trip(x: u32)
    ensures
        le_bytes(x).len() == 4,
        le_value(le_bytes(x)) == x,
{
}

/// Appends the four bytes of `x`, least significant first.
pub fn push_u32_le(out: &mut Vec<u8>, x: u32)
    ensures
        final(out)@ == old(out)@ + le_bytes(x),
{
    out.push((x % 256) as u8);
    out.push((x / 256 % 256) as u8);
    out.push((x / 65536 % 256) as u8);
    out.push((x / 16777216) as u8);
}

/// Reads four bytes as a number, least significant first.
pub fn u32_from_le(b: &[u8]) -> (x: u32)
    requires
        b@.len() == 4,
    ensures
        x == le_value(b@),
{
    b[0] as u32 + 256 * (b[1] as u32) + 65536 * (b[2] as u32) + 16777216 * (b[3] as u32)
}

/// Lays out a container: the header, the filter tags as they are, then the
/// compressed pixel stream, with nothing between or after them.
pub fn write_container(width: u32, height: u32, tags: &[u8], stream: &[u8]) -> (out: Vec<u8>)
    ensures
        out@ == container(width, height, tags@, stream@),
{
    let mut out: Vec<u8> = Vec::new();
    out.push(MAGIC[0]);
    out.push(MAGIC[1]);
    out.push(MAGIC[2]);
    out.push(MAGIC[3]);
    assert(out@ =~= magic());
    push_u32_le(&mut out, width);
    push_u32_le(&mut out, height);
    out.extend_from_slice(tags);
    assert(out@ =~= header(width, height) + tags@);
    out.extend_from_slice(stream);
    out
}

/// Reads the header at the start of `input`: checks the magic, then reads
/// width and height.
pub fn read_header(input: &[u8]) -> (r: Result<(u32, u32), DecodeError>)
    ensures
        r == parsed_header(input@),
{
    if input.len() < 4 {
        return Err(DecodeError::UnexpectedEnd);
    }
    if input[0] != MAGIC[0] || input[1] != MAGIC[1] || input[2] != MAGIC[2] || input[3] != MAGIC[3]
    {
        assert(input@.subrange(0, 4) != magic());
        return Err(DecodeError::InvalidMagic);
    }
    assert(input@.subrange(0, 4) =~= magic());
    if input.len() < HEADER_LEN {
        return Err(DecodeError::UnexpectedEnd);
    }
    let width = u32_from_le(&input[4..8]);
    let height = u32_from_le(&input[8..12]);
    Ok((width, height))
}

/// Reads the filter tags, one per row, from the start of `input`.
pub fn read_filters(input: &[u8], height: u32) -> (r: Result<Vec<u8>, DecodeError>)
    ensures
        match r {
            Ok(tags) => input@.len() >= height && tags@ == input@.subrange(0, height as int),
            Err(e) => input@.len() < height && e == DecodeError::UnexpectedEnd,
        },
{
    if input.len() < height as usize {
        return Err(DecodeError::UnexpectedEnd);
    }
    Ok(vstd::slice::slice_to_vec(&input[0..height as usize]))
}

/// Judges what came out of a pixel stream: the filtered rows, if every one
/// of the `expected` bytes is there and no more.
pub fn check_pixels(inflated: Option<Vec<u8>>, expected: usize) -> (r: Result<Vec<u8>, DecodeError>)
    ensures
        match r {
            Ok(pixels) => inflated == Some(pixels) && pixels@.len() == expected,
            Err(e) => e == DecodeError::CorruptStream && !(inflated matches Some(p) && p@.len()
                == expected),
        },
{
    match inflated {
        Some(pixels) => if pixels.len() == expected {
            Ok(pixels)
        } else {
            Err(DecodeError::CorruptStream)
        },
        None => Err(DecodeError::CorruptStream),
    }
}

/// Inflates the pixel stream `input` into the `width * height * 4` bytes of
/// filtered rows. Fails if the stream cannot supply that many bytes.
pub fn read_filtered_bytes(input: &[u8], height: u32, width: u32) -> (r: Result<
    Vec<u8>,
    DecodeError,
>)
    ensures
        match r {
            Ok(pixels) => inflated_pixels(input@, width, height) == Some(pixels@),
            Err(e) => inflated_pixels(input@, width, height) is None && e
                == DecodeError::CorruptStream,
        },
{
    match pixel_bytes(width, height) {
        Some(expected) => check_pixels(inflate(input, expected), expected),
        None => Err(DecodeError::CorruptStream),
    }
}

} // verus!
