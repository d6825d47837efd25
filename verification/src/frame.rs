//! The on-wire envelope for every request and every response: a big-endian
//! `u32` payload length, the payload bytes, and a 20-byte SHA-1 digest of
//! the payload. A whole frame fits in one datagram of at most
//! [`crate::MAXIMUM_SIZE`] bytes.
//!
//! The digest guards integrity only: the datagram substrate's own checksum
//! is 16-bit and can alias. No security claim is made.

use vstd::prelude::*;

use crate::{MAXIMUM_DATA_SIZE, MAXIMUM_SIZE};
use crate::encoding::{bytes_eq, copy_range, push_u32_be, read_u32_be, u32_be, u32_of_be};
use crate::proto::{
    dec_request, dec_response, decode_request, decode_response, enc_request, enc_response,
    encode_request, encode_response, req_decode_err, req_wf, resp_decode_err, resp_wf, Error,
    Request, RequestView, Response, ResponseView,
};

verus! {

/// The SHA-1 digest of a byte string. The digest is a function of the input
/// bytes alone, so it carries a name rather than a definition; nothing else
/// is assumed of its value.
pub uninterp spec fn sha1_of(data: Seq<u8>) -> Seq<u8>;

/// Relies on `ring::digest::digest` with `SHA1_FOR_LEGACY_USE_ONLY`: the
/// returned digest is SHA-1 of exactly the input bytes, hence determined by
/// them alone, and is 20 bytes long (`SHA1_OUTPUT_LEN`). `ring` fails only
/// on inputs of at least 2^61 bytes, far above the frame ceiling required
/// here.
#[verifier::external_body]
fn sha1(data: &Vec<u8>) -> (r: Vec<u8>)
    requires
        data@.len() <= MAXIMUM_SIZE,
    ensures
        r@ == sha1_of(data@),
        r@.len() == 20,
{
    ring::digest::digest(&ring::digest::SHA1_FOR_LEGACY_USE_ONLY, data.as_slice())
        .as_ref()
        .to_vec()
}

/// A payload fits on the wire when it leaves room for the length prefix and
/// the checksum trailer.
pub open spec fn frame_wf(payload: Seq<u8>) -> bool {
    payload.len() <= MAXIMUM_DATA_SIZE
}

/// The frame bytes carrying `payload`.
pub open spec fn enc_frame(payload: Seq<u8>) -> Seq<u8> {
    u32_be(payload.len() as u32) + payload + sha1_of(payload)
}

/// The payload recovered from frame bytes, when the length field is
/// plausible, the sizes agree, and the checksum matches.
pub open spec fn dec_frame(b: Seq<u8>) -> Option<Seq<u8>> {
    if b.len() < 4 {
        None
    } else {
        let len = u32_of_be(b[0], b[1], b[2], b[3]) as int;
        if len > MAXIMUM_DATA_SIZE {
            None
        } else if b.len() != 24 + len {
            None
        } else {
            let payload = b.subrange(4, 4 + len);
            if b.subrange(4 + len, b.len() as int) == sha1_of(payload) {
                Some(payload)
            } else {
                None
            }
        }
    }
}

/// The error with which frame bytes are rejected.
pub open spec fn frame_decode_err(b: Seq<u8>) -> Error {
    if b.len() < 4 {
        Error::Serialization
    } else {
        let len = u32_of_be(b[0], b[1], b[2], b[3]);
        if len > MAXIMUM_DATA_SIZE {
            Error::ImpossibleDataLen(len)
        } else if b.len() != 24 + len {
            Error::Serialization
        } else {
            Error::WrongChecksum
        }
    }
}

/// Wraps a payload in a frame: length prefix, payload, checksum. Fails
/// exactly when the payload exceeds [`MAXIMUM_DATA_SIZE`]; a produced frame
/// never exceeds [`MAXIMUM_SIZE`] bytes, and its leading four bytes read as
/// a big-endian `u32` equal to the payload length.
pub fn encode_frame(payload: &Vec<u8>) -> (r: Result<Vec<u8>, Error>)
    ensures
        match r {
            Ok(v) => {
                &&& frame_wf(payload@)
                &&& v@ == enc_frame(payload@)
                &&& v@.len() == payload@.len() + 24
                &&& v@.len() <= MAXIMUM_SIZE
                &&& u32_of_be(v@[0], v@[1], v@[2], v@[3]) == payload@.len()
            },
            Err(e) => !frame_wf(payload@) && e == Error::Serialization,
        },
{
    if payload.len() > MAXIMUM_DATA_SIZE {
        return Err(Error::Serialization);
    }
    let digest = sha1(payload);
    let mut out: Vec<u8> = Vec::new();
    push_u32_be(&mut out, payload.len() as u32);
    out.extend_from_slice(payload.as_slice());
    out.extend_from_slice(digest.as_slice());
    proof {
        assert(out@ =~= enc_frame(payload@));
        crate::encoding::lemma_u32_be_roundtrip(payload@.len() as u32);
        assert(out@[0] == u32_be(payload@.len() as u32)[0] && out@[1] == u32_be(
            payload@.len() as u32,
        )[1] && out@[2] == u32_be(payload@.len() as u32)[2] && out@[3] == u32_be(
            payload@.len() as u32,
        )[3]);
    }
    Ok(out)
}

/// Unwraps a frame back into its payload. Fails with
/// [`Error::ImpossibleDataLen`] when the length field exceeds
/// [`MAXIMUM_DATA_SIZE`], with [`Error::WrongChecksum`] when the trailing
/// digest does not match the payload, and with [`Error::Serialization`]
/// when the sizes do not agree.
pub fn decode_frame(b: &Vec<u8>) -> (r: Result<Vec<u8>, Error>)
    ensures
        match r {
            Ok(p) => dec_frame(b@) == Some(p@),
            Err(e) => dec_frame(b@) is None && e == frame_decode_err(b@),
        },
        dec_frame(b@) is Some ==> r is Ok,
{
    let n = b.len();
    if n < 4 {
        return Err(Error::Serialization);
    }
    let len = read_u32_be(b, 0);
    if len as usize > MAXIMUM_DATA_SIZE {
        return Err(Error::ImpossibleDataLen(len));
    }
    if n != 24 + len as usize {
        return Err(Error::Serialization);
    }
    let payload = copy_range(b, 4, len as usize);
    let stored = copy_range(b, 4 + len as usize, 20);
    let computed = sha1(&payload);
    if bytes_eq(&stored, &computed) {
        proof {
            assert(b@.subrange(4 + len as int, b@.len() as int) == sha1_of(
                b@.subrange(4, 4 + len as int),
            ));
        }
        Ok(payload)
    } else {
        proof {
            assert(b@.subrange(4 + len as int, b@.len() as int) != sha1_of(
                b@.subrange(4, 4 + len as int),
            ));
        }
        Err(Error::WrongChecksum)
    }
}

/// Round-trip at the frame level: a well-formed payload is recovered intact
/// from its own frame. The digest length premise is discharged by the
/// checksum function's contract at every call site.
pub proof fn lemma_frame_round_trip(payload: Seq<u8>)
    requires
        frame_wf(payload),
        sha1_of(payload).len() == 20,
    ensures
        dec_frame(enc_frame(payload)) == Some(payload),
{
    let b = enc_frame(payload);
    let pl = payload.len() as int;
    assert(b.len() == 24 + pl);
    let lenbytes = u32_be(payload.len() as u32);
    assert(b[0] == lenbytes[0] && b[1] == lenbytes[1] && b[2] == lenbytes[2] && b[3]
        == lenbytes[3]);
    crate::encoding::lemma_u32_be_roundtrip(payload.len() as u32);
    assert(b.subrange(4, 4 + pl) =~= payload);
    assert(b.subrange(4 + pl, b.len() as int) =~= sha1_of(payload));
}

// ---------------------------------------------------------------------------
// Whole-datagram codec: payload codec composed with the frame envelope.
// ---------------------------------------------------------------------------

/// The request carried by a whole datagram, if any.
pub open spec fn dec_request_wire(b: Seq<u8>) -> Option<RequestView> {
    match dec_frame(b) {
        Some(p) => dec_request(p),
        None => None,
    }
}

/// The response carried by a whole datagram, if any.
pub open spec fn dec_response_wire(b: Seq<u8>) -> Option<ResponseView> {
    match dec_frame(b) {
        Some(p) => dec_response(p),
        None => None,
    }
}

/// Serializes a request and wraps it in a frame; one datagram out. Fails
/// exactly when the message does not fit in one frame.
pub fn encode_request_frame(m: &Request) -> (r: Result<Vec<u8>, Error>)
    ensures
        match r {
            Ok(v) => {
                &&& req_wf(m@)
                &&& v@ == enc_frame(enc_request(m@))
                &&& v@.len() <= MAXIMUM_SIZE
                &&& dec_request_wire(v@) == Some(m@)
            },
            Err(e) => !req_wf(m@) && e == Error::Serialization,
        },
{
    match encode_request(m) {
        Ok(payload) => {
            let v = match encode_frame(&payload) {
                Ok(v) => v,
                Err(e) => {
                    return Err(e);
                },
            };
            proof {
                lemma_frame_round_trip(payload@);
                crate::proto::lemma_request_round_trip(m@);
            }
            Ok(v)
        },
        Err(e) => Err(e),
    }
}

/// Serializes a response and wraps it in a frame; one datagram out. Fails
/// exactly when the message does not fit in one frame.
pub fn encode_response_frame(m: &Response) -> (r: Result<Vec<u8>, Error>)
    ensures
        match r {
            Ok(v) => {
                &&& resp_wf(m@)
                &&& v@ == enc_frame(enc_response(m@))
                &&& v@.len() <= MAXIMUM_SIZE
                &&& dec_response_wire(v@) == Some(m@)
            },
            Err(e) => !resp_wf(m@) && e == Error::Serialization,
        },
{
    match encode_response(m) {
        Ok(payload) => {
            let v = match encode_frame(&payload) {
                Ok(v) => v,
                Err(e) => {
                    return Err(e);
                },
            };
            proof {
                lemma_frame_round_trip(payload@);
                crate::proto::lemma_response_round_trip(m@);
            }
            Ok(v)
        },
        Err(e) => Err(e),
    }
}

/// Decodes a whole datagram as a request: unwraps the frame, then
/// deserializes the payload.
pub fn decode_request_frame(b: &Vec<u8>) -> (r: Result<Request, Error>)
    ensures
        match r {
            Ok(m) => dec_request_wire(b@) == Some(m@),
            Err(e) => dec_request_wire(b@) is None && e == (match dec_frame(b@) {
                Some(p) => req_decode_err(p),
                None => frame_decode_err(b@),
            }),
        },
        dec_request_wire(b@) is Some ==> r is Ok,
{
    match decode_frame(b) {
        Ok(payload) => decode_request(&payload),
        Err(e) => Err(e),
    }
}

/// Decodes a whole datagram as a response: unwraps the frame, then
/// deserializes the payload.
pub fn decode_response_frame(b: &Vec<u8>) -> (r: Result<Response, Error>)
    ensures
        match r {
            Ok(m) => dec_response_wire(b@) == Some(m@),
            Err(e) => dec_response_wire(b@) is None && e == (match dec_frame(b@) {
                Some(p) => resp_decode_err(p),
                None => frame_decode_err(b@),
            }),
        },
        dec_response_wire(b@) is Some ==> r is Ok,
{
    match decode_frame(b) {
        Ok(payload) => decode_response(&payload),
        Err(e) => Err(e),
    }
}

/// Round-trip over the whole wire: decoding an encoded request datagram
/// yields the request back, for every well-formed request. The digest
/// length premise is discharged by the checksum function's contract at
/// every call site.
pub proof fn lemma_wire_request_round_trip(m: RequestView)
    requires
        req_wf(m),
        sha1_of(enc_request(m)).len() == 20,
    ensures
        dec_request_wire(enc_frame(enc_request(m))) == Some(m),
{
    lemma_frame_round_trip(enc_request(m));
    crate::proto::lemma_request_round_trip(m);
}

/// Round-trip over the whole wire: decoding an encoded response datagram
/// yields the response back, for every well-formed response. The digest
/// length premise is discharged by the checksum function's contract at
/// every call site.
pub proof fn lemma_wire_response_round_trip(m: ResponseView)
    requires
        resp_wf(m),
        sha1_of(enc_response(m)).len() == 20,
    ensures
        dec_response_wire(enc_frame(enc_response(m))) == Some(m),
{
    lemma_frame_round_trip(enc_response(m));
    crate::proto::lemma_response_round_trip(m);
}

} // verus!
