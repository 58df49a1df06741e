//! The gzip primitive, taken from flate2 as a whole-body transform.
use vstd::prelude::*;

use std::io::Write;

verus! {

/// The gzip-compressed form of a byte sequence, at flate2's default
/// level with its default stream header. What the bytes look like is
/// the compressor's business; the library only carries them, counts
/// them, and promises they came from this input.
pub uninterp spec fn gzip_of(b: Seq<u8>) -> Seq<u8>;

/// Relies on flate2's `write::GzEncoder` at the default compression
/// level: writing into a `Vec` sink never fails, and the default
/// stream header (zero mtime, fixed operating-system byte) makes the
/// output a function of the input bytes alone.
#[verifier::external_body]
pub(crate) fn gzip_compress(b: &Vec<u8>) -> (r: Vec<u8>)
    ensures
        r@ == gzip_of(b@),
{
    let mut encoder = flate2::write::GzEncoder::new(Vec::new(), flate2::Compression::default());
    encoder.write_all(b).unwrap();
    encoder.finish().unwrap()
}

} // verus!
