//! Compression layers: a zlib or brotli stream that holds a frame.

use crate::error::{FelgensError, FelgensResult};
use crate::header::{pack, parsed, BilibiliPackHeader};
use std::io::Read;
use vstd::prelude::*;
use vstd::slice::slice_to_vec;

verus! {

/// The bytes that `stream` holds as one zlib member, or `None` where the
/// stream is malformed or ends too early.
pub uninterp spec fn zlib_inflated(stream: Seq<u8>) -> Option<Seq<u8>>;

/// The bytes that `stream` holds as one brotli stream, or `None` where the
/// stream is malformed or ends too early.
pub uninterp spec fn brotli_inflated(stream: Seq<u8>) -> Option<Seq<u8>>;

#[verifier::external_type_specification]
#[verifier::external_body]
pub struct ExIoError(std::io::Error);

/// `ZlibDecoder::new` of flate2 over `stream`, drained with `read_to_end`.
///
/// Trusted: what is read, or that reading fails, depends on the bytes of
/// `stream` alone; `zlib_inflated` is the name of that outcome. Nothing is
/// claimed about which bytes come out.
#[verifier::external_body]
fn inflate_zlib(stream: &[u8]) -> (r: Result<Vec<u8>, std::io::Error>)
    ensures
        match r {
            Ok(out) => zlib_inflated(stream@) == Some(out@),
            Err(_) => zlib_inflated(stream@) is None,
        },
{
    let mut out = Vec::new();
    let mut z = flate2::read::ZlibDecoder::new(stream);
    match z.read_to_end(&mut out) {
        Ok(_) => Ok(out),
        Err(e) => Err(e),
    }
}

/// `Decompressor::new` of brotli over `stream`, with a 4096-byte input buffer,
/// drained with `read_to_end`.
///
/// Trusted: what is read, or that reading fails, depends on the bytes of
/// `stream` alone; `brotli_inflated` is the name of that outcome. Nothing is
/// claimed about which bytes come out.
#[verifier::external_body]
fn inflate_brotli(stream: &[u8]) -> (r: Result<Vec<u8>, std::io::Error>)
    ensures
        match r {
            Ok(out) => brotli_inflated(stream@) == Some(out@),
            Err(_) => brotli_inflated(stream@) is None,
        },
{
    let mut out = Vec::new();
    let mut reader = brotli::Decompressor::new(stream, 4096);
    match reader.read_to_end(&mut out) {
        Ok(_) => Ok(out),
        Err(e) => Err(e),
    }
}

/// The frame that a decompressed layer holds: `DecompressionFailure` where
/// the stream gave nothing, `Truncated` where it gave less than a header.
pub open spec fn reframed(inflated: Option<Seq<u8>>) -> FelgensResult<(BilibiliPackHeader, Seq<u8>)> {
    match inflated {
        None => Err(FelgensError::DecompressionFailure),
        Some(bytes) => parsed(bytes),
    }
}

/// Reads the outcome of a decompression as a frame: its header and the bytes
/// behind it.
pub fn reframe(inflated: Result<Vec<u8>, std::io::Error>) -> (r: FelgensResult<(BilibiliPackHeader, Vec<u8>)>)
    ensures
        match r {
            Ok((header, buf)) => inflated matches Ok(bytes) && parsed(bytes@) == Ok::<_, FelgensError>(
                (header, buf@),
            ),
            Err(e) => match inflated {
                Ok(bytes) => parsed(bytes@) == Err::<(BilibiliPackHeader, Seq<u8>), _>(e),
                Err(_) => e == FelgensError::DecompressionFailure,
            },
        },
{
    match inflated {
        Err(_) => Err(FelgensError::DecompressionFailure),
        Ok(bytes) => {
            let ctx = pack(bytes.as_slice())?;
            let header = ctx.0;
            let buf = slice_to_vec(ctx.1);
            Ok((header, buf))
        },
    }
}

/// Takes `body` for a zlib stream and reads what it holds as a frame.
pub fn zlib_decode(body: &[u8]) -> (r: FelgensResult<(BilibiliPackHeader, Vec<u8>)>)
    ensures
        match r {
            Ok((header, buf)) => reframed(zlib_inflated(body@)) == Ok::<_, FelgensError>((header, buf@)),
            Err(e) => reframed(zlib_inflated(body@)) == Err::<(BilibiliPackHeader, Seq<u8>), _>(e),
        },
{
    reframe(inflate_zlib(body))
}

/// Takes `body` for a brotli stream and reads what it holds as a frame.
pub fn brotli_decode(body: &[u8]) -> (r: FelgensResult<(BilibiliPackHeader, Vec<u8>)>)
    ensures
        match r {
            Ok((header, buf)) => reframed(brotli_inflated(body@)) == Ok::<_, FelgensError>(
                (header, buf@),
            ),
            Err(e) => reframed(brotli_inflated(body@)) == Err::<(BilibiliPackHeader, Seq<u8>), _>(e),
        },
{
    reframe(inflate_brotli(body))
}

} // verus!
