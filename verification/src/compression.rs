//! Gzip compression of message payloads, through the `flate2` crate. The
//! outcome of gzip decoding is named `gunzip_of`; the trusted wrappers state
//! the crate's round-trip promise over that name.
use vstd::prelude::*;
use crate::error::Error;
use std::io::Read;
use std::io::Write;

verus! {

/// What gzip decoding returns on a byte sequence: the decompressed bytes,
/// or nothing when the input is not a well-formed gzip stream.
pub uninterp spec fn gunzip_of(data: Seq<u8>) -> Option<Seq<u8>>;

/// What gzip encoding at the default level produces on a byte sequence.
/// The stream depends on the input alone: the header carries a fixed
/// operating-system byte and a zero timestamp, and deflate is deterministic.
pub uninterp spec fn gzip_of(data: Seq<u8>) -> Seq<u8>;

/// A payload compression scheme: on success, what `compress` returns
/// decodes back to exactly its input, and `decompress` undoes it.
pub trait Compressor {
    /// Compress the data; the result gunzips back to the input.
    fn compress(&self, data: &[u8]) -> (r: Result<Vec<u8>, Error>)
        ensures
            r matches Ok(v) ==> gunzip_of(v@) == Option::Some(data@),
    ;

    /// Decompress previously compressed data: succeeds with the decoded
    /// bytes exactly when the input is a well-formed gzip stream.
    fn decompress(&self, data: &[u8]) -> (r: Result<Vec<u8>, Error>)
        ensures
            r matches Ok(v) ==> gunzip_of(data@) == Option::Some(v@),
            r is Err ==> gunzip_of(data@) is None,
    ;
}

/// Gzip at the default level; payloads under `min_data_size` are not worth
/// compressing.
pub struct GzCompressor {
    pub min_data_size: u32,
}

impl GzCompressor {
    /// The default threshold under which compression is skipped.
    pub fn new() -> (r: GzCompressor)
        ensures
            r.min_data_size == 150,
    {
        GzCompressor { min_data_size: 150 }
    }

    /// A compressor with a caller-chosen threshold.
    pub fn new_with_min_compression_size(min_data_size: u32) -> (r: GzCompressor)
        ensures
            r.min_data_size == min_data_size,
    {
        GzCompressor { min_data_size }
    }

    /// Whether a payload of the given size is large enough to compress.
    pub fn should_compress(&self, data_size: u32) -> (r: bool)
        ensures
            r == (data_size >= self.min_data_size),
    {
        data_size >= self.min_data_size
    }
}

/// Relies on `flate2::write::GzEncoder` at the default level: on success
/// the result is the gzip stream of the input — a function of the input
/// alone in this crate version — and it decodes back to exactly the input.
#[verifier::external_body]
pub fn gz_compress(data: &[u8]) -> (r: Result<Vec<u8>, Error>)
    ensures
        match r {
            Ok(v) => v@ == gzip_of(data@) && gunzip_of(v@) == Option::Some(data@),
            Err(e) => e == Error::IoError,
        },
{
    let mut encoder = flate2::write::GzEncoder::new(Vec::new(), flate2::Compression::default());
    match encoder.write_all(data) {
        Ok(()) => match encoder.finish() {
            Ok(v) => Ok(v),
            Err(_) => Err(Error::IoError),
        },
        Err(_) => Err(Error::IoError),
    }
}

/// Relies on `flate2::read::GzDecoder`: decoding succeeds with the
/// decompressed bytes exactly when the input is a well-formed gzip stream,
/// which is what `gunzip_of` names.
#[verifier::external_body]
pub fn gz_decompress(data: &[u8]) -> (r: Result<Vec<u8>, Error>)
    ensures
        match r {
            Ok(v) => gunzip_of(data@) == Option::Some(v@),
            Err(e) => gunzip_of(data@) == Option::<Seq<u8>>::None && e == Error::IoError,
        },
{
    let mut decoder = flate2::read::GzDecoder::new(data);
    let mut buffer = Vec::new();
    match decoder.read_to_end(&mut buffer) {
        Ok(_) => Ok(buffer),
        Err(_) => Err(Error::IoError),
    }
}

impl Compressor for GzCompressor {
    /// Gzip the data; beyond the trait's round-trip promise, the output is
    /// `gzip_of` the input: equal inputs give equal compressed bytes.
    fn compress(&self, data: &[u8]) -> (r: Result<Vec<u8>, Error>)
        ensures
            r matches Ok(v) ==> v@ == gzip_of(data@),
    {
        gz_compress(data)
    }

    /// Undo `compress`.
    fn decompress(&self, data: &[u8]) -> (r: Result<Vec<u8>, Error>) {
        gz_decompress(data)
    }
}

} // verus!
