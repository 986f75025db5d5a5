//! Transport framing: the optional whole-payload compression filter and the
//! encode/compress and decompress/decode pipelines that turn protocol values
//! into single binary messages and back. Both ends must agree on whether the
//! filter is on; it is symmetric and orthogonal to the value encoding.

use vstd::prelude::*;

use crate::codec_msg::{
    decode_request, decode_response, encode_request, encode_response, spec_enc_request,
    spec_enc_response, spec_parse_request, spec_parse_response, spec_wf_request,
    spec_wf_response,
};
use crate::shared::{Request, Response};
use crate::ErrorKind;

verus! {

/// What the zlib compressor produces for the given bytes. The compressor
/// runs at the default level, so its output depends on the input alone.
pub uninterp spec fn zlib_of(data: Seq<u8>) -> Seq<u8>;

/// Relies on flate2's `ZlibEncoder` (default level, in-memory writer): the
/// output is a deterministic function of the input bytes, and writing into
/// a `Vec` cannot fail, so compression always succeeds.
#[verifier::external_body]
fn zlib_compress(data: &Vec<u8>) -> (r: Vec<u8>)
    ensures
        r@ == zlib_of(data@),
{
    let mut encoder = flate2::write::ZlibEncoder::new(Vec::new(), flate2::Compression::default());
    std::io::Write::write_all(&mut encoder, data.as_slice())
        .expect("writing into a Vec cannot fail");
    encoder.finish().expect("writing into a Vec cannot fail")
}

/// Relies on flate2's `ZlibDecoder`: decompressing what the zlib encoder
/// produced yields the original bytes, and a stream the encoder could not
/// have produced either fails or decodes to something else arbitrary.
#[verifier::external_body]
fn zlib_decompress(data: &Vec<u8>) -> (r: Result<Vec<u8>, ErrorKind>)
    ensures
        match r {
            Ok(out) => forall|orig: Seq<u8>| data@ == zlib_of(orig) ==> out@ == orig,
            Err(e) => {
                &&& e == ErrorKind::Decompression
                &&& forall|orig: Seq<u8>| data@ != zlib_of(orig)
            },
        },
{
    let mut decoder = flate2::read::ZlibDecoder::new(data.as_slice());
    let mut out: Vec<u8> = Vec::new();
    match std::io::Read::read_to_end(&mut decoder, &mut out) {
        Ok(_) => Ok(out),
        Err(_) => Err(ErrorKind::Decompression),
    }
}

/// The bytes of one transport message carrying the given encoded value:
/// the encoding itself, or its compression when the filter is on.
pub open spec fn spec_payload_of(enc: Seq<u8>, compress: bool) -> Seq<u8> {
    if compress {
        zlib_of(enc)
    } else {
        enc
    }
}

/// Encodes a request into the payload of one transport message, applying
/// the compression filter when `compress` is set. Encoding never fails:
/// failure is reserved for the decoding direction.
pub fn encode_request_payload(r: &Request, compress: bool) -> (out: Vec<u8>)
    ensures
        out@ == spec_payload_of(spec_enc_request(r@), compress),
        spec_wf_request(r@),
{
    let enc = encode_request(r);
    if compress {
        zlib_compress(&enc)
    } else {
        enc
    }
}

/// Decodes the payload of one transport message into a request, undoing the
/// compression filter when `compressed` is set. In particular, feeding back
/// what `encode_request_payload` produced returns exactly the encoded
/// request.
pub fn decode_request_payload(s: &Vec<u8>, compressed: bool) -> (r: Result<Request, ErrorKind>)
    ensures
        match r {
            Ok(req) => {
                &&& !compressed ==> spec_parse_request(s@, 0) == Some((req@, s@.len() as int))
                &&& compressed ==> forall|orig: Seq<u8>|
                    s@ == zlib_of(orig) ==> spec_parse_request(orig, 0) == Some(
                        (req@, orig.len() as int),
                    )
            },
            Err(e) => {
                &&& (e == ErrorKind::Serialization || e == ErrorKind::Decompression)
                &&& !compressed ==> (e == ErrorKind::Serialization && (match spec_parse_request(
                    s@,
                    0,
                ) {
                    Some((v, j)) => j != s@.len(),
                    None => true,
                }))
                &&& compressed ==> forall|orig: Seq<u8>|
                    s@ == zlib_of(orig) ==> (match spec_parse_request(orig, 0) {
                        Some((v, j)) => j != orig.len(),
                        None => true,
                    })
            },
        },
{
    if compressed {
        match zlib_decompress(s) {
            Ok(plain) => decode_request(&plain),
            Err(e) => Err(e),
        }
    } else {
        decode_request(s)
    }
}

/// Encodes a response into the payload of one transport message. Encoding
/// never fails: failure is reserved for the decoding direction.
pub fn encode_response_payload(r: &Response, compress: bool) -> (out: Vec<u8>)
    ensures
        out@ == spec_payload_of(spec_enc_response(r@), compress),
        spec_wf_response(r@),
{
    let enc = encode_response(r);
    if compress {
        zlib_compress(&enc)
    } else {
        enc
    }
}

/// Decodes the payload of one transport message into a response.
pub fn decode_response_payload(s: &Vec<u8>, compressed: bool) -> (r: Result<Response, ErrorKind>)
    ensures
        match r {
            Ok(resp) => {
                &&& !compressed ==> spec_parse_response(s@, 0) == Some((resp@, s@.len() as int))
                &&& compressed ==> forall|orig: Seq<u8>|
                    s@ == zlib_of(orig) ==> spec_parse_response(orig, 0) == Some(
                        (resp@, orig.len() as int),
                    )
            },
            Err(e) => {
                &&& (e == ErrorKind::Serialization || e == ErrorKind::Decompression)
                &&& !compressed ==> (e == ErrorKind::Serialization && (match spec_parse_response(
                    s@,
                    0,
                ) {
                    Some((v, j)) => j != s@.len(),
                    None => true,
                }))
                &&& compressed ==> forall|orig: Seq<u8>|
                    s@ == zlib_of(orig) ==> (match spec_parse_response(orig, 0) {
                        Some((v, j)) => j != orig.len(),
                        None => true,
                    })
            },
        },
{
    if compressed {
        match zlib_decompress(s) {
            Ok(plain) => decode_response(&plain),
            Err(e) => Err(e),
        }
    } else {
        decode_response(s)
    }
}

} // verus!
