//! Transparent decompression of fetched payloads: the transport layer says
//! whether a body came gzip-compressed, and the payload is what the body
//! denotes after undoing that.

use vstd::prelude::*;

verus! {

/// What a gzip stream decompresses to: `None` on a malformed stream.
/// Decompression is a pure function of the bytes, so its result can be
/// named without stating the format.
pub uninterp spec fn gunzip_of(bytes: Seq<u8>) -> Option<Seq<u8>>;

/// Relies on `flate2::read::GzDecoder`: decompression is a pure function of
/// the compressed bytes and fails exactly on streams it cannot decode.
#[verifier::external_body]
fn gunzip(bytes: &Vec<u8>) -> (r: Result<Vec<u8>, String>)
    ensures
        match r {
            Ok(out) => gunzip_of(bytes@) == Some(out@),
            Err(_) => gunzip_of(bytes@) is None,
        },
{
    let mut decoder = flate2::read::GzDecoder::new(bytes.as_slice());
    let mut out: Vec<u8> = Vec::new();
    match std::io::Read::read_to_end(&mut decoder, &mut out) {
        Ok(_) => Ok(out),
        Err(e) => Err(e.to_string()),
    }
}

/// The payload a response body denotes: the decompressed stream when the
/// transport marked the body as gzip-compressed, the body itself otherwise.
pub open spec fn body_payload(gzipped: bool, body: Seq<u8>) -> Option<Seq<u8>> {
    if gzipped {
        gunzip_of(body)
    } else {
        Some(body)
    }
}

/// Undoes the transport's compression if it applied any.
pub fn decompress_if_needed(gzipped: bool, body: Vec<u8>) -> (r: Result<Vec<u8>, String>)
    ensures
        match r {
            Ok(out) => body_payload(gzipped, body@) == Some(out@),
            Err(_) => body_payload(gzipped, body@) is None,
        },
{
    if gzipped {
        gunzip(&body)
    } else {
        Ok(body)
    }
}

} // verus!
