//! Client-side logic: reassembly, both end-of-stream conventions, gap
//! detection and filling, the retransmit behaviour, and whole download
//! scenarios run through the real codec.

use fftp::client::{download_step, DownloadEvent, DownloadPhase, Reassembly};
use fftp::client::DownloadEvent as E;
use fftp::client::DownloadPhase as P;
use fftp::frame::{decode_response_frame, encode_request_frame, encode_response_frame};
use fftp::server::{dispatch, plan_chunks, read_range, Action};
use fftp::{Error, FileData, Request, Response};

/// Builds the server's response datagrams for a full download of `content`
/// at chunk size `c`, in order.
fn serve_full_download(content: &Vec<u8>, c: u32) -> Vec<Vec<u8>> {
    let mut out = Vec::new();
    for (start, len) in plan_chunks(content.len() as u32, c) {
        let data = read_range(content, start, len).unwrap();
        let last = data.is_empty();
        let resp = Response::Part { start_byte: start, data, last };
        out.push(encode_response_frame(&resp).unwrap());
    }
    out
}

/// Feeds one decoded response into the reassembly.
fn apply(re: &mut Reassembly, resp: &Response) {
    match resp {
        Response::Part { start_byte, data, last } => re.apply_part(*start_byte, data, *last),
        Response::Summary(n) => re.apply_summary(*n),
        _ => panic!("not a download response"),
    }
}

#[test]
fn full_download_hello() {
    // Root /srv, file /srv/a.txt = "hello": the whole pipeline from request
    // dispatch through chunking, framing and reassembly.
    let root = b"/srv".to_vec();
    let content = b"hello".to_vec();
    let req = Request::Download { path: b"a.txt".to_vec() };
    let action = dispatch(&req, Some(b"/srv/a.txt".to_vec()), &root);
    assert!(matches!(action, Action::StreamFile { .. }));
    let datagrams = serve_full_download(&content, 4096);
    assert_eq!(datagrams.len(), 2);
    let mut re = Reassembly::new();
    for d in &datagrams {
        let resp = decode_response_frame(d).unwrap();
        apply(&mut re, &resp);
    }
    assert!(re.complete());
    assert_eq!(re.assembled(), content);
}

#[test]
fn summary_terminator_accepted() {
    // An older server closes the stream with Summary(total) instead of a
    // terminal Part; the client accepts either convention.
    let content = b"hello world".to_vec();
    let mut re = Reassembly::new();
    re.apply_part(0, &content, false);
    assert!(!re.complete());
    re.apply_summary(content.len() as u32);
    assert!(re.complete());
    assert_eq!(re.assembled(), content);
}

#[test]
fn not_allowed_reply_round_trips() {
    // Root /srv, missing file: the server denies; the client sees exactly
    // NotAllowed and reports it.
    let root = b"/srv".to_vec();
    let req = Request::Download { path: b"nope.txt".to_vec() };
    assert!(matches!(dispatch(&req, None, &root), Action::Deny));
    let wire = encode_response_frame(&Response::NotAllowed).unwrap();
    assert_eq!(decode_response_frame(&wire).unwrap(), Response::NotAllowed);
}

#[test]
fn directory_listing_names() {
    // Root /srv with three files: the listing carries the three names,
    // relative, with no root prefix.
    let entries = vec![
        FileData { path: b"a.txt".to_vec(), created: 0, size: 5 },
        FileData { path: b"b.txt".to_vec(), created: 0, size: 7 },
        FileData { path: b"c.txt".to_vec(), created: 0, size: 9 },
    ];
    let wire = encode_response_frame(&Response::Directory(entries.clone())).unwrap();
    match decode_response_frame(&wire).unwrap() {
        Response::Directory(back) => {
            let names: Vec<&[u8]> = back.iter().map(|f| f.path.as_slice()).collect();
            assert_eq!(names, vec![&b"a.txt"[..], &b"b.txt"[..], &b"c.txt"[..]]);
        },
        _ => panic!("expected a directory listing"),
    }
}

#[test]
fn corrupted_reply_is_discarded_and_resent() {
    // The server's first reply is corrupted in flight: the client discards
    // it, re-sends on timeout, and succeeds on the clean re-reply.
    let req = Request::List { path: b".".to_vec() };
    let request_wire = encode_request_frame(&req).unwrap();
    let reply = Response::Directory(vec![FileData {
        path: b"a.txt".to_vec(),
        created: 0,
        size: 5,
    }]);
    let mut first = encode_response_frame(&reply).unwrap();
    first[6] ^= 0x10;
    assert_eq!(decode_response_frame(&first), Err(Error::WrongChecksum));
    let (p, send) = download_step(DownloadPhase::Awaiting, DownloadEvent::BadFrame);
    assert_eq!((p, send), (DownloadPhase::Awaiting, false));
    let (p, send) = download_step(p, DownloadEvent::TimedOut);
    assert_eq!(p, DownloadPhase::Awaiting);
    assert!(send);
    // The resent request is the same frame, and the clean re-reply decodes.
    assert_eq!(encode_request_frame(&req).unwrap(), request_wire);
    let second = encode_response_frame(&reply).unwrap();
    assert_eq!(decode_response_frame(&second).unwrap(), reply);
}

#[test]
fn lossy_download_gap_filled() {
    // A 1 MiB download over a lossy link: one middle part is dropped; the
    // reassembly has a hole; after the terminal frame the client requests
    // exactly the missing range and completes byte-identically.
    let n: usize = 1 << 20;
    let content: Vec<u8> = (0..n).map(|i| (i % 241) as u8).collect();
    let c: u32 = 4096;
    let datagrams = serve_full_download(&content, c);
    let dropped: usize = 57;
    let mut re = Reassembly::new();
    for (i, d) in datagrams.iter().enumerate() {
        if i == dropped {
            continue;
        }
        let resp = decode_response_frame(d).unwrap();
        apply(&mut re, &resp);
    }
    assert!(!re.complete());
    let (gap_start, gap_len) = re.first_gap().unwrap();
    assert_eq!(gap_start, dropped as u32 * c);
    assert_eq!(gap_len, c);
    // The client issues DownloadPart for the hole; the server reads the
    // same range of the unchanged file.
    let refill = read_range(&content, gap_start, gap_len).unwrap();
    let wire = encode_response_frame(&Response::Part {
        start_byte: gap_start,
        data: refill,
        last: false,
    })
    .unwrap();
    match decode_response_frame(&wire).unwrap() {
        Response::Part { start_byte, data, last } => {
            assert!(!last);
            re.apply_part(start_byte, &data, last);
        },
        _ => panic!("expected a part"),
    }
    assert!(re.complete());
    assert!(re.first_gap().is_none());
    assert_eq!(re.assembled(), content);
}

#[test]
fn out_of_order_parts_assemble() {
    let content = b"abcdefgh".to_vec();
    let mut re = Reassembly::new();
    re.apply_part(4, &b"efgh".to_vec(), false);
    re.apply_part(0, &b"abcd".to_vec(), false);
    re.apply_part(8, &Vec::new(), true);
    assert!(re.complete());
    assert_eq!(re.assembled(), content);
}

#[test]
fn overlapping_part_overwrites() {
    let mut re = Reassembly::new();
    re.apply_part(0, &b"xxxx".to_vec(), false);
    re.apply_part(2, &b"yy".to_vec(), false);
    re.apply_summary(4);
    assert!(re.complete());
    assert_eq!(re.assembled(), b"xxyy".to_vec());
}

#[test]
fn gap_to_known_total_detected() {
    // Summary announces more than arrived: the tail is a gap.
    let mut re = Reassembly::new();
    re.apply_part(0, &b"abc".to_vec(), false);
    re.apply_summary(10);
    assert!(!re.complete());
    assert_eq!(re.first_gap(), Some((3, 7)));
}

#[test]
fn phase_machine_transitions() {
    assert_eq!(download_step(P::Idle, E::Sent), (P::Awaiting, false));
    assert_eq!(download_step(P::Awaiting, E::TimedOut), (P::Awaiting, true));
    assert_eq!(download_step(P::Awaiting, E::GotData), (P::Receiving, false));
    assert_eq!(download_step(P::Awaiting, E::GotUnexpected), (P::Failed, false));
    assert_eq!(download_step(P::Receiving, E::GotData), (P::Receiving, false));
    assert_eq!(download_step(P::Receiving, E::EndSeen), (P::Complete, false));
    assert_eq!(download_step(P::Receiving, E::GotUnexpected), (P::Failed, false));
    assert_eq!(download_step(P::Complete, E::GapFound), (P::GapFilling, true));
    assert_eq!(download_step(P::GapFilling, E::TimedOut), (P::GapFilling, true));
    assert_eq!(download_step(P::GapFilling, E::EndSeen), (P::Complete, false));
}
