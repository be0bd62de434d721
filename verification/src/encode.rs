//! Encoding: from an image to the bytes of its container.

use crate::bitmap::{Bitmap, Raster};
use crate::container::{container, write_container};
use crate::decode::{decoded, lemma_round_trip};
use crate::error::DecodeError;
use crate::filter_laws::lemma_filtered_image_len;
use crate::filters::{apply_filters, filter_tags, filtered_image};
use crate::zlib::{bytes_of, compress, zlib_compressed};
use vstd::prelude::*;

verus! {

/// The container of an image: its header, the tag of the filter chosen for
/// each row, and the compressed filtered rows. `None` if the compressor
/// reports an error.
pub open spec fn encoded(img: Raster) -> Option<Seq<u8>> {
    match zlib_compressed(filtered_image(img)) {
        Some(stream) => Some(container(img.width, img.height, filter_tags(img), stream)),
        None => None,
    }
}

/// Encodes an image: filters every row, compresses the filtered rows in one
/// pass, and lays out the container. The result is fixed by the image, and
/// decodes to it.
pub fn encode(img: &Bitmap) -> (r: Option<Vec<u8>>)
    ensures
        bytes_of(r) == encoded(img@),
        r matches Some(out) ==> decoded(out@) == Ok::<Raster, DecodeError>(img@),
{
    let (filters, filtered_bytes) = apply_filters(img);
    proof {
        use_type_invariant(img);
    }
    match compress(filtered_bytes.as_slice()) {
        Some(stream) => {
            proof {
                lemma_filtered_image_len(img@);
                lemma_round_trip(img@, stream@);
            }
            Some(write_container(img.width(), img.height(), filters.as_slice(), stream.as_slice()))
        },
        None => None,
    }
}

/// Images of the same size with the same bytes have the same filter tags,
/// the same filtered rows and the same container: nothing else enters the
/// encoding.
pub proof fn lemma_encoding_repeatable(a: Raster, b: Raster)
    requires
        a.width == b.width,
        a.height == b.height,
        a.data.len() == b.data.len(),
        forall|i: int| 0 <= i < a.data.len() ==> a.data[i] == b.data[i],
    ensures
        filter_tags(a) == filter_tags(b),
        filtered_image(a) == filtered_image(b),
        encoded(a) == encoded(b),
{
    assert(a.data =~= b.data);
}

} // verus!
