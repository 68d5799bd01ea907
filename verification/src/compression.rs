use crate::blob::Blob;
use crate::error::TileError;
use std::io::Write;
use vstd::prelude::*;

verus! {

/// The compression applied to a blob, orthogonal to its tile format.
#[derive(Clone, Copy, Debug, PartialEq, Eq, Structural)]
pub enum Compression {
    Uncompressed,
    Gzip,
    Brotli,
}

impl Compression {
    /// The one-byte tag of this compression in the container header.
    pub open spec fn spec_tag(self) -> u8 {
        match self {
            Compression::Uncompressed => 0,
            Compression::Gzip => 1,
            Compression::Brotli => 2,
        }
    }

    /// Writes the header tag.
    pub fn tag(&self) -> (r: u8)
        ensures
            r == self.spec_tag(),
    {
        match self {
            Compression::Uncompressed => 0,
            Compression::Gzip => 1,
            Compression::Brotli => 2,
        }
    }

    /// Reads a header tag back; tags above 2 name no compression.
    pub fn from_tag(t: u8) -> (r: Option<Compression>)
        ensures
            match r {
                Some(c) => c.spec_tag() == t,
                None => t > 2,
            },
    {
        match t {
            0 => Some(Compression::Uncompressed),
            1 => Some(Compression::Gzip),
            2 => Some(Compression::Brotli),
            _ => None,
        }
    }
}

/// What the gzip compressor returns for given bytes.
pub uninterp spec fn gzip_of(data: Seq<u8>) -> Seq<u8>;

/// What the gzip decompressor returns for given bytes; `None` on bytes
/// that are not a gzip stream.
pub uninterp spec fn gunzip_of(data: Seq<u8>) -> Option<Seq<u8>>;

/// What the brotli compressor returns for given bytes.
pub uninterp spec fn brotli_of(data: Seq<u8>) -> Seq<u8>;

/// What the brotli decompressor returns for given bytes; `None` on bytes
/// that are not a brotli stream.
pub uninterp spec fn unbrotli_of(data: Seq<u8>) -> Option<Seq<u8>>;

/// Relies on flate2's `write::GzEncoder`: writing into a `Vec` cannot fail,
/// the output is a gzip stream (RFC 1952, so it opens with the two magic
/// bytes 0x1f 0x8b), and decompressing it gives the input back.
#[verifier::external_body]
pub(crate) fn compress_gzip(data: &Blob) -> (r: Blob)
    ensures
        r@ == gzip_of(data@),
        r@.len() >= 2 && r@[0] == 0x1f && r@[1] == 0x8b,
        gunzip_of(r@) == Some(data@),
{
    let mut enc = flate2::write::GzEncoder::new(Vec::new(), flate2::Compression::default());
    enc.write_all(data.as_slice()).unwrap();
    Blob::new(enc.finish().unwrap())
}

/// Relies on flate2's `write::GzDecoder`: it inflates exactly the gzip
/// streams and rejects everything else.
#[verifier::external_body]
pub(crate) fn decompress_gzip(data: &Blob) -> (r: Option<Blob>)
    ensures
        r is Some <==> gunzip_of(data@) is Some,
        r is Some ==> r->0@ == gunzip_of(data@)->0,
{
    let mut dec = flate2::write::GzDecoder::new(Vec::new());
    if dec.write_all(data.as_slice()).is_err() {
        return None;
    }
    match dec.finish() {
        Ok(v) => Some(Blob::new(v)),
        Err(_) => None,
    }
}

/// Relies on brotli's `BrotliCompress` with default parameters: writing into
/// a `Vec` cannot fail, and decompressing the output gives the input back.
#[verifier::external_body]
pub(crate) fn compress_brotli(data: &Blob) -> (r: Blob)
    ensures
        r@ == brotli_of(data@),
        unbrotli_of(r@) == Some(data@),
{
    let params = brotli::enc::BrotliEncoderParams::default();
    let mut out: Vec<u8> = Vec::new();
    let mut input = data.as_slice();
    brotli::enc::BrotliCompress(&mut input, &mut out, &params).unwrap();
    Blob::new(out)
}

/// Relies on brotli's `BrotliDecompress`: it inflates exactly the brotli
/// streams and rejects everything else.
#[verifier::external_body]
pub(crate) fn decompress_brotli(data: &Blob) -> (r: Option<Blob>)
    ensures
        r is Some <==> unbrotli_of(data@) is Some,
        r is Some ==> r->0@ == unbrotli_of(data@)->0,
{
    let mut out: Vec<u8> = Vec::new();
    let mut input = data.as_slice();
    match brotli::BrotliDecompress(&mut input, &mut out) {
        Ok(()) => Some(Blob::new(out)),
        Err(_) => None,
    }
}

/// The bytes of `data` once `c` has been applied.
pub open spec fn spec_compress(data: Seq<u8>, c: Compression) -> Seq<u8> {
    match c {
        Compression::Uncompressed => data,
        Compression::Gzip => gzip_of(data),
        Compression::Brotli => brotli_of(data),
    }
}

/// The bytes of `data` once `c` has been undone; `None` when `data` is not
/// a stream of that compression.
pub open spec fn spec_decompress(data: Seq<u8>, c: Compression) -> Option<Seq<u8>> {
    match c {
        Compression::Uncompressed => Some(data),
        Compression::Gzip => gunzip_of(data),
        Compression::Brotli => unbrotli_of(data),
    }
}

/// Applies the compression `c` to `data`.
pub fn compress(data: Blob, c: &Compression) -> (r: Blob)
    ensures
        r@ == spec_compress(data@, *c),
        spec_decompress(r@, *c) == Some(data@),
{
    match c {
        Compression::Uncompressed => data,
        Compression::Gzip => compress_gzip(&data),
        Compression::Brotli => compress_brotli(&data),
    }
}

/// Undoes the compression `c` on `data`; fails with `CodecError` exactly on
/// bytes that are not a stream of that compression.
pub fn decompress(data: Blob, c: &Compression) -> (r: Result<Blob, TileError>)
    ensures
        r is Ok <==> spec_decompress(data@, *c) is Some,
        r is Ok ==> r->Ok_0@ == spec_decompress(data@, *c)->0,
        r is Err ==> r->Err_0 == TileError::CodecError,
{
    match c {
        Compression::Uncompressed => Ok(data),
        Compression::Gzip => match decompress_gzip(&data) {
            Some(b) => Ok(b),
            None => Err(TileError::CodecError),
        },
        Compression::Brotli => match decompress_brotli(&data) {
            Some(b) => Ok(b),
            None => Err(TileError::CodecError),
        },
    }
}

} // verus!
