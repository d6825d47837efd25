//! Frame and payload codec behaviour: round trips, size bounds,
//! endianness of the length prefix, and checksum protection.

use fftp::frame::{decode_frame, decode_request_frame, decode_response_frame, encode_frame,
    encode_request_frame, encode_response_frame};
use fftp::proto::{decode_request, decode_response, encode_request, encode_response};
use fftp::{Error, FileData, Request, Response, MAXIMUM_DATA_SIZE, MAXIMUM_SIZE};

#[test]
fn round_trip_list() {
    let m = Request::List { path: b"docs".to_vec() };
    let wire = encode_request_frame(&m).unwrap();
    let back = decode_request_frame(&wire).unwrap();
    assert_eq!(back, m);
}

#[test]
fn round_trip_download() {
    let m = Request::Download { path: b"a.txt".to_vec() };
    let wire = encode_request_frame(&m).unwrap();
    let back = decode_request_frame(&wire).unwrap();
    assert_eq!(back, m);
}

#[test]
fn round_trip_download_part() {
    let m = Request::DownloadPart { path: b"a.txt".to_vec(), start_byte: 1234, len: 500 };
    let wire = encode_request_frame(&m).unwrap();
    let back = decode_request_frame(&wire).unwrap();
    assert_eq!(back, m);
}

#[test]
fn round_trip_directory() {
    let m = Response::Directory(vec![
        FileData { path: b"a.txt".to_vec(), created: 1_700_000_000_000_000_000, size: 5 },
        FileData { path: b"b.txt".to_vec(), created: 0, size: 0 },
        FileData { path: b"c.bin".to_vec(), created: 42, size: u64::MAX },
    ]);
    let wire = encode_response_frame(&m).unwrap();
    let back = decode_response_frame(&wire).unwrap();
    assert_eq!(back, m);
}

#[test]
fn round_trip_summary_part_not_allowed() {
    for m in [
        Response::Summary(123456),
        Response::Part { start_byte: 7, data: vec![1, 2, 3], last: false },
        Response::Part { start_byte: 10, data: vec![], last: true },
        Response::NotAllowed,
    ] {
        let wire = encode_response_frame(&m).unwrap();
        let back = decode_response_frame(&wire).unwrap();
        assert_eq!(back, m);
    }
}

#[test]
fn empty_path_round_trips() {
    let m = Request::List { path: Vec::new() };
    let wire = encode_request_frame(&m).unwrap();
    assert_eq!(decode_request_frame(&wire).unwrap(), m);
}

#[test]
fn empty_directory_round_trips() {
    let m = Response::Directory(Vec::new());
    let wire = encode_response_frame(&m).unwrap();
    assert_eq!(decode_response_frame(&wire).unwrap(), m);
}

#[test]
fn size_bound_upheld() {
    // The largest part payload that still fits: 10 bytes of framing inside
    // the payload codec, 24 bytes of envelope.
    let data = vec![0xabu8; MAXIMUM_DATA_SIZE - 10];
    let m = Response::Part { start_byte: 0, data, last: false };
    let wire = encode_response_frame(&m).unwrap();
    assert_eq!(wire.len(), MAXIMUM_SIZE);
}

#[test]
fn oversized_message_refused() {
    let data = vec![0xabu8; MAXIMUM_DATA_SIZE - 9];
    let m = Response::Part { start_byte: 0, data, last: false };
    assert_eq!(encode_response_frame(&m), Err(Error::Serialization));
    let m2 = Request::Download { path: vec![b'x'; 70_000] };
    assert_eq!(encode_request_frame(&m2), Err(Error::Serialization));
}

#[test]
fn oversized_frame_payload_refused() {
    let payload = vec![0u8; MAXIMUM_DATA_SIZE + 1];
    assert_eq!(encode_frame(&payload), Err(Error::Serialization));
}

#[test]
fn length_prefix_is_big_endian() {
    let m = Request::Download { path: b"a.txt".to_vec() };
    let payload = encode_request(&m).unwrap();
    let wire = encode_frame(&payload).unwrap();
    let n = u32::from_be_bytes([wire[0], wire[1], wire[2], wire[3]]);
    assert_eq!(n as usize, payload.len());
    assert_eq!(wire.len(), payload.len() + 24);
}

#[test]
fn checksum_flip_detected() {
    let m = Request::Download { path: b"a.txt".to_vec() };
    let payload = encode_request(&m).unwrap();
    let wire = encode_frame(&payload).unwrap();
    // Flip each single bit of the payload region in turn; every corruption
    // must be caught as a checksum mismatch.
    for byte in 4..4 + payload.len() {
        for bit in 0..8 {
            let mut corrupt = wire.clone();
            corrupt[byte] ^= 1 << bit;
            assert_eq!(decode_frame(&corrupt), Err(Error::WrongChecksum));
        }
    }
}

#[test]
fn impossible_length_detected() {
    let payload = b"hi".to_vec();
    let mut wire = encode_frame(&payload).unwrap();
    // Overwrite the length prefix with a value above the payload ceiling.
    wire[0] = 0xff;
    wire[1] = 0xff;
    wire[2] = 0xff;
    wire[3] = 0xff;
    match decode_frame(&wire) {
        Err(Error::ImpossibleDataLen(n)) => assert_eq!(n, 0xffff_ffff),
        other => panic!("expected ImpossibleDataLen, got {:?}", other),
    }
}

#[test]
fn truncated_frame_refused() {
    let payload = b"hello".to_vec();
    let mut wire = encode_frame(&payload).unwrap();
    wire.pop();
    assert_eq!(decode_frame(&wire), Err(Error::Serialization));
    assert_eq!(decode_frame(&vec![1, 2, 3]), Err(Error::Serialization));
}

#[test]
fn unknown_tag_is_unexpected_type() {
    assert_eq!(decode_request(&vec![9u8]), Err(Error::UnexpectedType));
    assert_eq!(decode_response(&vec![9u8]), Err(Error::UnexpectedType));
    // Tag 3 is a response variant, not a request one.
    assert_eq!(decode_request(&vec![3u8]), Err(Error::UnexpectedType));
}

#[test]
fn trailing_bytes_refused() {
    let m = Request::List { path: b"d".to_vec() };
    let mut payload = encode_request(&m).unwrap();
    payload.push(0);
    assert_eq!(decode_request(&payload), Err(Error::Serialization));
}

#[test]
fn pinned_wire_layout() {
    // Tags in declaration order, big-endian integers, length-prefixed
    // byte strings, one-byte bools.
    let m = Request::DownloadPart { path: b"ab".to_vec(), start_byte: 258, len: 3 };
    let payload = encode_request(&m).unwrap();
    assert_eq!(
        payload,
        vec![2u8, 0, 0, 0, 2, b'a', b'b', 0, 0, 1, 2, 0, 0, 0, 3]
    );
    let r = Response::Part { start_byte: 1, data: vec![0xaa], last: true };
    let rp = encode_response(&r).unwrap();
    assert_eq!(rp, vec![2u8, 0, 0, 0, 1, 0, 0, 0, 1, 0xaa, 1]);
    assert_eq!(encode_response(&Response::NotAllowed).unwrap(), vec![3u8]);
    assert_eq!(
        encode_response(&Response::Summary(5)).unwrap(),
        vec![1u8, 0, 0, 0, 5]
    );
}

#[test]
fn error_descriptions() {
    assert_eq!(Error::WrongChecksum.describe(), "wrong checksum");
    assert_eq!(Error::V6NotSupported.describe(), "IPv6 is not supported yet");
    assert_eq!(Error::ImpossibleDataLen(7).describe(), "impossible data length");
}
