//! Message types used in communication between the client and the server,
//! and their binary payload codec.
//!
//! The payload layout is pinned here once and for all: tagged unions carry a
//! single-byte tag in declaration order (`Request`: 0 = `List`,
//! 1 = `Download`, 2 = `DownloadPart`; `Response`: 0 = `Directory`,
//! 1 = `Summary`, 2 = `Part`, 3 = `NotAllowed`), integers are fixed-width
//! big-endian, byte strings and sequences carry a big-endian `u32` length or
//! count prefix, a `bool` is one byte (0 or 1), and no trailing bytes are
//! tolerated. A whole payload is bounded by [`crate::MAXIMUM_DATA_SIZE`].
//!
//! The end-of-stream convention emitted by this generation of the protocol
//! is a terminal `Part` with `last = true` (and possibly empty `data`); a
//! trailing `Summary` frame from an older server is still decoded and the
//! client accepts it as an alternative terminator.

use vstd::prelude::*;

use crate::MAXIMUM_DATA_SIZE;
use crate::encoding::{
    u32_be, u32_of_be, u64_be, u64_of_be, lemma_u32_be_roundtrip, lemma_u64_be_roundtrip,
    push_u32_be, push_u64_be, read_u32_be, read_u64_be, copy_range,
};

verus! {

/// Types of requests that may be sent from a client.
///
/// Paths travel on the wire as raw bytes; callers that hold text convert
/// to and from UTF-8 at the edge.
#[derive(Debug, Clone, PartialEq, Eq)]
pub enum Request {
    /// List files available for download.
    List { path: Vec<u8> },
    /// Download a file.
    Download { path: Vec<u8> },
    /// Download a *part* of a file.
    DownloadPart {
        /// Path of the file.
        path: Vec<u8>,
        /// The byte to start at.
        start_byte: u32,
        /// The amount of data to request.
        len: u32,
    },
}

/// Types of responses that may be sent by a server.
#[derive(Debug, Clone, PartialEq, Eq)]
pub enum Response {
    /// Directory listing.
    Directory(Vec<FileData>),
    /// Length of a file; an alternative end-of-stream marker kept for
    /// compatibility with older servers.
    Summary(u32),
    /// Part of a file. `last` marks end-of-stream; `data` may be empty on
    /// the terminal frame.
    Part { start_byte: u32, data: Vec<u8>, last: bool },
    /// Operation is not allowed.
    NotAllowed,
}

/// Simple representation of a file on the server.
#[derive(Debug, Clone, PartialEq, Eq)]
pub struct FileData {
    /// Path of the file, relative to the listed directory.
    pub path: Vec<u8>,
    /// Creation time of the file, in nanoseconds since the epoch; zero when
    /// the filesystem cannot provide one.
    pub created: u64,
    /// Size of the file in bytes.
    pub size: u64,
}

/// Mathematical model of a [`FileData`].
pub ghost struct FileDataView {
    pub path: Seq<u8>,
    pub created: u64,
    pub size: u64,
}

/// Mathematical model of a [`Request`].
pub ghost enum RequestView {
    List { path: Seq<u8> },
    Download { path: Seq<u8> },
    DownloadPart { path: Seq<u8>, start_byte: u32, len: u32 },
}

/// Mathematical model of a [`Response`].
pub ghost enum ResponseView {
    Directory(Seq<FileDataView>),
    Summary(u32),
    Part { start_byte: u32, data: Seq<u8>, last: bool },
    NotAllowed,
}

impl View for FileData {
    type V = FileDataView;

    open spec fn view(&self) -> FileDataView {
        FileDataView { path: self.path@, created: self.created, size: self.size }
    }
}

impl View for Request {
    type V = RequestView;

    open spec fn view(&self) -> RequestView {
        match self {
            Request::List { path } => RequestView::List { path: path@ },
            Request::Download { path } => RequestView::Download { path: path@ },
            Request::DownloadPart { path, start_byte, len } => RequestView::DownloadPart {
                path: path@,
                start_byte: *start_byte,
                len: *len,
            },
        }
    }
}

impl View for Response {
    type V = ResponseView;

    open spec fn view(&self) -> ResponseView {
        match self {
            Response::Directory(entries) => ResponseView::Directory(
                entries@.map_values(|f: FileData| f@),
            ),
            Response::Summary(n) => ResponseView::Summary(*n),
            Response::Part { start_byte, data, last } => ResponseView::Part {
                start_byte: *start_byte,
                data: data@,
                last: *last,
            },
            Response::NotAllowed => ResponseView::NotAllowed,
        }
    }
}

// ---------------------------------------------------------------------------
// Specification-level encoding.
// ---------------------------------------------------------------------------

/// A byte string on the wire: a big-endian `u32` length then the bytes.
pub open spec fn enc_bytes(b: Seq<u8>) -> Seq<u8> {
    u32_be(b.len() as u32) + b
}

/// One directory entry on the wire: path, creation time, size.
pub open spec fn enc_filedata(f: FileDataView) -> Seq<u8> {
    enc_bytes(f.path) + u64_be(f.created) + u64_be(f.size)
}

/// Directory entries on the wire, one after the other.
pub open spec fn enc_fd_list(s: Seq<FileDataView>) -> Seq<u8>
    decreases s.len(),
{
    if s.len() == 0 {
        Seq::empty()
    } else {
        enc_filedata(s[0]) + enc_fd_list(s.skip(1))
    }
}

/// The payload bytes of a request.
pub open spec fn enc_request(m: RequestView) -> Seq<u8> {
    match m {
        RequestView::List { path } => seq![0u8] + enc_bytes(path),
        RequestView::Download { path } => seq![1u8] + enc_bytes(path),
        RequestView::DownloadPart { path, start_byte, len } => seq![2u8] + enc_bytes(path)
            + u32_be(start_byte) + u32_be(len),
    }
}

/// The payload bytes of a response.
pub open spec fn enc_response(m: ResponseView) -> Seq<u8> {
    match m {
        ResponseView::Directory(entries) => seq![0u8] + u32_be(entries.len() as u32) + enc_fd_list(
            entries,
        ),
        ResponseView::Summary(n) => seq![1u8] + u32_be(n),
        ResponseView::Part { start_byte, data, last } => seq![2u8] + u32_be(start_byte) + enc_bytes(
            data,
        ) + seq![(if last { 1u8 } else { 0u8 })],
        ResponseView::NotAllowed => seq![3u8],
    }
}

/// A request is well formed when its payload fits inside one frame.
pub open spec fn req_wf(m: RequestView) -> bool {
    enc_request(m).len() <= MAXIMUM_DATA_SIZE
}

/// A response is well formed when its payload fits inside one frame.
pub open spec fn resp_wf(m: ResponseView) -> bool {
    enc_response(m).len() <= MAXIMUM_DATA_SIZE
}

// ---------------------------------------------------------------------------
// Specification-level decoding: positional parsers. Each returns the parsed
// value and the position just past it, or `None` when the bytes do not
// parse.
// ---------------------------------------------------------------------------

/// Parses a big-endian `u32` at `pos`.
pub open spec fn parse_u32(b: Seq<u8>, pos: int) -> Option<(u32, int)> {
    if 0 <= pos && pos + 4 <= b.len() {
        Some((u32_of_be(b[pos], b[pos + 1], b[pos + 2], b[pos + 3]), pos + 4))
    } else {
        None
    }
}

/// Parses a big-endian `u64` at `pos`.
pub open spec fn parse_u64(b: Seq<u8>, pos: int) -> Option<(u64, int)> {
    if 0 <= pos && pos + 8 <= b.len() {
        Some((u64_of_be(b.subrange(pos, pos + 8)), pos + 8))
    } else {
        None
    }
}

/// Parses a length-prefixed byte string at `pos`.
pub open spec fn parse_bytes(b: Seq<u8>, pos: int) -> Option<(Seq<u8>, int)> {
    match parse_u32(b, pos) {
        Some((n, p)) => if p + n <= b.len() {
            Some((b.subrange(p, p + n), p + n))
        } else {
            None
        },
        None => None,
    }
}

/// Parses a one-byte boolean at `pos`.
pub open spec fn parse_bool(b: Seq<u8>, pos: int) -> Option<(bool, int)> {
    if 0 <= pos && pos + 1 <= b.len() {
        if b[pos] == 0 {
            Some((false, pos + 1))
        } else if b[pos] == 1 {
            Some((true, pos + 1))
        } else {
            None
        }
    } else {
        None
    }
}

/// Parses one directory entry at `pos`.
pub open spec fn parse_filedata(b: Seq<u8>, pos: int) -> Option<(FileDataView, int)> {
    match parse_bytes(b, pos) {
        Some((path, p1)) => match parse_u64(b, p1) {
            Some((created, p2)) => match parse_u64(b, p2) {
                Some((size, p3)) => Some((FileDataView { path, created, size }, p3)),
                None => None,
            },
            None => None,
        },
        None => None,
    }
}

/// Parses `n` directory entries starting at `pos`.
pub open spec fn parse_fd_list(b: Seq<u8>, pos: int, n: int) -> Option<(Seq<FileDataView>, int)>
    decreases n,
{
    if n <= 0 {
        Some((Seq::empty(), pos))
    } else {
        match parse_filedata(b, pos) {
            Some((f, p)) => match parse_fd_list(b, p, n - 1) {
                Some((s, q)) => Some((seq![f] + s, q)),
                None => None,
            },
            None => None,
        }
    }
}

/// Decodes a whole request payload; the payload must be consumed exactly.
pub open spec fn dec_request(b: Seq<u8>) -> Option<RequestView> {
    if b.len() < 1 {
        None
    } else if b[0] == 0 || b[0] == 1 {
        match parse_bytes(b, 1) {
            Some((path, p)) => if p == b.len() {
                if b[0] == 0 {
                    Some(RequestView::List { path })
                } else {
                    Some(RequestView::Download { path })
                }
            } else {
                None
            },
            None => None,
        }
    } else if b[0] == 2 {
        match parse_bytes(b, 1) {
            Some((path, p1)) => match parse_u32(b, p1) {
                Some((start_byte, p2)) => match parse_u32(b, p2) {
                    Some((len, p3)) => if p3 == b.len() {
                        Some(RequestView::DownloadPart { path, start_byte, len })
                    } else {
                        None
                    },
                    None => None,
                },
                None => None,
            },
            None => None,
        }
    } else {
        None
    }
}

/// Decodes a whole response payload; the payload must be consumed exactly.
pub open spec fn dec_response(b: Seq<u8>) -> Option<ResponseView> {
    if b.len() < 1 {
        None
    } else if b[0] == 0 {
        match parse_u32(b, 1) {
            Some((count, p1)) => match parse_fd_list(b, p1, count as int) {
                Some((entries, p2)) => if p2 == b.len() {
                    Some(ResponseView::Directory(entries))
                } else {
                    None
                },
                None => None,
            },
            None => None,
        }
    } else if b[0] == 1 {
        match parse_u32(b, 1) {
            Some((n, p)) => if p == b.len() {
                Some(ResponseView::Summary(n))
            } else {
                None
            },
            None => None,
        }
    } else if b[0] == 2 {
        match parse_u32(b, 1) {
            Some((start_byte, p1)) => match parse_bytes(b, p1) {
                Some((data, p2)) => match parse_bool(b, p2) {
                    Some((last, p3)) => if p3 == b.len() {
                        Some(ResponseView::Part { start_byte, data, last })
                    } else {
                        None
                    },
                    None => None,
                },
                None => None,
            },
            None => None,
        }
    } else if b[0] == 3 {
        if b.len() == 1 {
            Some(ResponseView::NotAllowed)
        } else {
            None
        }
    } else {
        None
    }
}

// ---------------------------------------------------------------------------
// Errors.
// ---------------------------------------------------------------------------

/// Types of communication errors that can occur.
#[derive(Debug, Clone, Copy, PartialEq, Eq, Structural)]
pub enum Error {
    /// Encoding or decoding of a payload failed: the message does not fit
    /// in one frame, or the bytes do not parse.
    Serialization,
    /// The local endpoint was bound to an IPv6 address.
    V6NotSupported,
    /// No reply arrived within the caller's outer deadline.
    ConnectionTimeout,
    /// A frame's length field exceeds [`crate::MAXIMUM_DATA_SIZE`].
    ImpossibleDataLen(u32),
    /// The payload's tag names no variant of the expected message kind.
    UnexpectedType,
    /// A frame's checksum does not match its payload.
    WrongChecksum,
}

impl Error {
    /// A fixed human-readable description of the error. The length carried
    /// by [`Error::ImpossibleDataLen`] is not spelled into the text; a
    /// caller that wants it reads it from the variant.
    pub fn describe(&self) -> (r: &'static str)
        ensures
            r@ == (match self {
                Error::Serialization => "serialization failed"@,
                Error::V6NotSupported => "IPv6 is not supported yet"@,
                Error::ConnectionTimeout => "timed out connecting"@,
                Error::ImpossibleDataLen(_) => "impossible data length"@,
                Error::UnexpectedType => "expected request/response or vice versa"@,
                Error::WrongChecksum => "wrong checksum"@,
            }),
    {
        match self {
            Error::Serialization => "serialization failed",
            Error::V6NotSupported => "IPv6 is not supported yet",
            Error::ConnectionTimeout => "timed out connecting",
            Error::ImpossibleDataLen(_) => "impossible data length",
            Error::UnexpectedType => "expected request/response or vice versa",
            Error::WrongChecksum => "wrong checksum",
        }
    }
}

/// The error with which a request payload is rejected.
pub open spec fn req_decode_err(b: Seq<u8>) -> Error {
    if b.len() >= 1 && b[0] > 2 {
        Error::UnexpectedType
    } else {
        Error::Serialization
    }
}

/// The error with which a response payload is rejected.
pub open spec fn resp_decode_err(b: Seq<u8>) -> Error {
    if b.len() >= 1 && b[0] > 3 {
        Error::UnexpectedType
    } else {
        Error::Serialization
    }
}

// ---------------------------------------------------------------------------
// Round-trip: decoding an encoded payload yields the message back.
// ---------------------------------------------------------------------------

/// Every path in the list is short enough for its length prefix.
pub open spec fn fd_paths_small(s: Seq<FileDataView>) -> bool {
    forall|i: int| 0 <= i < s.len() ==> #[trigger] s[i].path.len() <= u32::MAX
}

/// Each directory entry takes at least 20 bytes on the wire, and every
/// entry's path is no longer than the whole list's encoding.
pub proof fn lemma_enc_fd_list_len(s: Seq<FileDataView>)
    ensures
        enc_fd_list(s).len() >= 20 * s.len(),
        forall|i: int|
            0 <= i < s.len() ==> #[trigger] s[i].path.len() + 20 <= enc_fd_list(s).len(),
    decreases s.len(),
{
    if s.len() > 0 {
        lemma_enc_fd_list_len(s.skip(1));
        assert(enc_filedata(s[0]).len() == 20 + s[0].path.len());
        assert(forall|i: int| 1 <= i < s.len() ==> s.skip(1)[i - 1] == #[trigger] s[i]);
    }
}

proof fn lemma_parse_u32_at(b: Seq<u8>, pos: int, x: u32)
    requires
        0 <= pos,
        pos + 4 <= b.len(),
        b.subrange(pos, pos + 4) == u32_be(x),
    ensures
        parse_u32(b, pos) == Some((x, pos + 4)),
{
    let s = b.subrange(pos, pos + 4);
    assert(b[pos] == s[0] && b[pos + 1] == s[1] && b[pos + 2] == s[2] && b[pos + 3] == s[3]);
    lemma_u32_be_roundtrip(x);
}

proof fn lemma_parse_u64_at(b: Seq<u8>, pos: int, x: u64)
    requires
        0 <= pos,
        pos + 8 <= b.len(),
        b.subrange(pos, pos + 8) == u64_be(x),
    ensures
        parse_u64(b, pos) == Some((x, pos + 8)),
{
    lemma_u64_be_roundtrip(x);
}

proof fn lemma_parse_bytes_at(b: Seq<u8>, pos: int, x: Seq<u8>)
    requires
        0 <= pos,
        x.len() <= u32::MAX,
        pos + 4 + x.len() <= b.len(),
        b.subrange(pos, pos + 4 + x.len()) == enc_bytes(x),
    ensures
        parse_bytes(b, pos) == Some((x, pos + 4 + x.len())),
{
    let n = x.len() as u32;
    assert(b.subrange(pos, pos + 4) =~= enc_bytes(x).subrange(0, 4)) by {
        assert(forall|i: int|
            0 <= i < 4 ==> #[trigger] b.subrange(pos, pos + 4)[i] == b.subrange(
                pos,
                pos + 4 + x.len(),
            )[i]);
    }
    assert(enc_bytes(x).subrange(0, 4) =~= u32_be(n));
    lemma_parse_u32_at(b, pos, n);
    assert(b.subrange(pos + 4, pos + 4 + n) =~= x) by {
        assert(forall|i: int|
            0 <= i < x.len() ==> #[trigger] b.subrange(pos + 4, pos + 4 + x.len())[i]
                == b.subrange(pos, pos + 4 + x.len())[4 + i]);
        assert(forall|i: int| 0 <= i < x.len() ==> enc_bytes(x)[4 + i] == x[i]);
    }
}

proof fn lemma_parse_filedata_at(b: Seq<u8>, pos: int, f: FileDataView)
    requires
        0 <= pos,
        f.path.len() <= u32::MAX,
        pos + 20 + f.path.len() <= b.len(),
        b.subrange(pos, pos + 20 + f.path.len()) == enc_filedata(f),
    ensures
        parse_filedata(b, pos) == Some((f, pos + 20 + f.path.len())),
{
    let e = enc_filedata(f);
    let a = enc_bytes(f.path);
    let c1 = u64_be(f.created);
    let c2 = u64_be(f.size);
    let pl = f.path.len() as int;
    assert(a.len() == 4 + pl && c1.len() == 8 && c2.len() == 8 && e.len() == 20 + pl);
    assert(forall|i: int| 0 <= i < e.len() ==> b[pos + i] == #[trigger] e[i]) by {
        assert(forall|i: int|
            0 <= i < e.len() ==> b.subrange(pos, pos + 20 + f.path.len())[i] == #[trigger] e[i]);
    }
    assert(b.subrange(pos, pos + 4 + pl) =~= a) by {
        assert forall|i: int| 0 <= i < 4 + pl implies #[trigger] b.subrange(pos, pos + 4 + pl)[i]
            == a[i] by {
            assert(b[pos + i] == e[i]);
            assert(e[i] == (a + c1)[i]);
        }
    }
    lemma_parse_bytes_at(b, pos, f.path);
    assert(b.subrange(pos + 4 + pl, pos + 12 + pl) =~= c1) by {
        assert forall|i: int| 0 <= i < 8 implies #[trigger] b.subrange(
            pos + 4 + pl,
            pos + 12 + pl,
        )[i] == c1[i] by {
            assert(b[pos + (4 + pl + i)] == e[4 + pl + i]);
            assert(e[4 + pl + i] == (a + c1)[4 + pl + i]);
            assert((a + c1)[4 + pl + i] == c1[i]);
        }
    }
    lemma_parse_u64_at(b, pos + 4 + pl, f.created);
    assert(b.subrange(pos + 12 + pl, pos + 20 + pl) =~= c2) by {
        assert forall|i: int| 0 <= i < 8 implies #[trigger] b.subrange(
            pos + 12 + pl,
            pos + 20 + pl,
        )[i] == c2[i] by {
            assert(b[pos + (12 + pl + i)] == e[12 + pl + i]);
            assert(e[12 + pl + i] == c2[i]);
        }
    }
    lemma_parse_u64_at(b, pos + 12 + pl, f.size);
}

proof fn lemma_parse_fd_list_at(b: Seq<u8>, pos: int, s: Seq<FileDataView>)
    requires
        0 <= pos,
        fd_paths_small(s),
        pos + enc_fd_list(s).len() <= b.len(),
        b.subrange(pos, pos + enc_fd_list(s).len()) == enc_fd_list(s),
    ensures
        parse_fd_list(b, pos, s.len() as int) == Some((s, pos + enc_fd_list(s).len())),
    decreases s.len(),
{
    if s.len() == 0 {
        assert(s =~= Seq::<FileDataView>::empty());
    } else {
        let f = s[0];
        let rest = s.skip(1);
        let e = enc_fd_list(s);
        let l0 = 20 + f.path.len() as int;
        assert(e == enc_filedata(f) + enc_fd_list(rest));
        assert(enc_filedata(f).len() == l0);
        assert(forall|i: int| 0 <= i < e.len() ==> b[pos + i] == #[trigger] e[i]) by {
            assert(forall|i: int|
                0 <= i < e.len() ==> b.subrange(pos, pos + enc_fd_list(s).len())[i]
                    == #[trigger] e[i]);
        }
        assert(b.subrange(pos, pos + l0) =~= enc_filedata(f)) by {
            assert forall|i: int| 0 <= i < l0 implies #[trigger] b.subrange(pos, pos + l0)[i]
                == enc_filedata(f)[i] by {
                assert(b[pos + i] == e[i]);
                assert(e[i] == enc_filedata(f)[i]);
            }
        }
        lemma_parse_filedata_at(b, pos, f);
        assert(forall|i: int| 0 <= i < rest.len() ==> rest[i] == #[trigger] s[i + 1]);
        assert(b.subrange(pos + l0, pos + l0 + enc_fd_list(rest).len()) =~= enc_fd_list(rest)) by {
            assert forall|i: int| 0 <= i < enc_fd_list(rest).len() implies #[trigger] b.subrange(
                pos + l0,
                pos + l0 + enc_fd_list(rest).len(),
            )[i] == enc_fd_list(rest)[i] by {
                assert(b[pos + (l0 + i)] == e[l0 + i]);
                assert(e[l0 + i] == enc_fd_list(rest)[i]);
            }
        }
        lemma_parse_fd_list_at(b, pos + l0, rest);
        assert(seq![f] + rest =~= s);
    }
}

/// Round-trip at the payload level: every well-formed request decodes from
/// its own encoding to itself.
pub proof fn lemma_request_round_trip(m: RequestView)
    requires
        req_wf(m),
    ensures
        dec_request(enc_request(m)) == Some(m),
{
    let b = enc_request(m);
    match m {
        RequestView::List { path } => {
            assert(b.len() == 5 + path.len());
            assert(b[0] == 0);
            assert(b.subrange(1, b.len() as int) =~= enc_bytes(path));
            lemma_parse_bytes_at(b, 1, path);
        },
        RequestView::Download { path } => {
            assert(b.len() == 5 + path.len());
            assert(b[0] == 1);
            assert(b.subrange(1, b.len() as int) =~= enc_bytes(path));
            lemma_parse_bytes_at(b, 1, path);
        },
        RequestView::DownloadPart { path, start_byte, len } => {
            let pl = path.len() as int;
            assert(b.len() == 13 + pl);
            assert(b[0] == 2);
            assert(b.subrange(1, 5 + pl) =~= enc_bytes(path));
            lemma_parse_bytes_at(b, 1, path);
            assert(b.subrange(5 + pl, 9 + pl) =~= u32_be(start_byte));
            lemma_parse_u32_at(b, 5 + pl, start_byte);
            assert(b.subrange(9 + pl, 13 + pl) =~= u32_be(len));
            lemma_parse_u32_at(b, 9 + pl, len);
        },
    }
}

/// Round-trip at the payload level: every well-formed response decodes from
/// its own encoding to itself.
pub proof fn lemma_response_round_trip(m: ResponseView)
    requires
        resp_wf(m),
    ensures
        dec_response(enc_response(m)) == Some(m),
{
    let b = enc_response(m);
    match m {
        ResponseView::Directory(entries) => {
            lemma_enc_fd_list_len(entries);
            let el = enc_fd_list(entries).len() as int;
            let cnt = entries.len() as u32;
            assert(entries.len() <= u32::MAX);
            assert(fd_paths_small(entries));
            assert(b.len() == 5 + el);
            assert(b[0] == 0);
            assert(b.subrange(1, 5) =~= u32_be(cnt));
            lemma_parse_u32_at(b, 1, cnt);
            assert(b.subrange(5, 5 + el) =~= enc_fd_list(entries));
            lemma_parse_fd_list_at(b, 5, entries);
        },
        ResponseView::Summary(n) => {
            assert(b.len() == 5);
            assert(b[0] == 1);
            assert(b.subrange(1, 5) =~= u32_be(n));
            lemma_parse_u32_at(b, 1, n);
        },
        ResponseView::Part { start_byte, data, last } => {
            let dl = data.len() as int;
            assert(b.len() == 10 + dl);
            assert(b[0] == 2);
            assert(b.subrange(1, 5) =~= u32_be(start_byte));
            lemma_parse_u32_at(b, 1, start_byte);
            assert(b.subrange(5, 9 + dl) =~= enc_bytes(data));
            lemma_parse_bytes_at(b, 5, data);
            assert(b[9 + dl] == (if last { 1u8 } else { 0u8 }));
        },
        ResponseView::NotAllowed => {
            assert(b.len() == 1);
            assert(b[0] == 3);
        },
    }
}

// ---------------------------------------------------------------------------
// Executable encoding.
// ---------------------------------------------------------------------------

/// Appending one entry to a directory listing appends its encoding.
proof fn lemma_enc_fd_list_snoc(s: Seq<FileDataView>, f: FileDataView)
    ensures
        enc_fd_list(s.push(f)) == enc_fd_list(s) + enc_filedata(f),
    decreases s.len(),
{
    if s.len() == 0 {
        assert(s.push(f)[0] == f);
        assert(s.push(f).skip(1) =~= Seq::<FileDataView>::empty());
        assert(enc_fd_list(s.push(f)) == enc_filedata(f) + enc_fd_list(
            Seq::<FileDataView>::empty(),
        ));
        assert(enc_fd_list(Seq::<FileDataView>::empty()) == Seq::<u8>::empty());
        assert(enc_fd_list(s) == Seq::<u8>::empty());
        assert(enc_filedata(f) + Seq::<u8>::empty() =~= Seq::<u8>::empty() + enc_filedata(f));
    } else {
        assert(s.push(f).skip(1) =~= s.skip(1).push(f));
        lemma_enc_fd_list_snoc(s.skip(1), f);
        assert(s.push(f)[0] == s[0]);
        assert(enc_fd_list(s.push(f)) == enc_filedata(s[0]) + (enc_fd_list(s.skip(1))
            + enc_filedata(f)));
        assert(enc_fd_list(s) == enc_filedata(s[0]) + enc_fd_list(s.skip(1)));
        assert(enc_filedata(s[0]) + (enc_fd_list(s.skip(1)) + enc_filedata(f)) =~= (enc_filedata(
            s[0],
        ) + enc_fd_list(s.skip(1))) + enc_filedata(f));
    }
}

/// Serializes a request into payload bytes; fails exactly when the message
/// does not fit in one frame.
pub fn encode_request(m: &Request) -> (r: Result<Vec<u8>, Error>)
    ensures
        match r {
            Ok(v) => req_wf(m@) && v@ == enc_request(m@),
            Err(e) => !req_wf(m@) && e == Error::Serialization,
        },
{
    match m {
        Request::List { path } => {
            if path.len() > MAXIMUM_DATA_SIZE - 5 {
                return Err(Error::Serialization);
            }
            let mut out: Vec<u8> = Vec::new();
            out.push(0u8);
            push_u32_be(&mut out, path.len() as u32);
            out.extend_from_slice(path.as_slice());
            proof {
                assert(out@ =~= enc_request(m@));
            }
            Ok(out)
        },
        Request::Download { path } => {
            if path.len() > MAXIMUM_DATA_SIZE - 5 {
                return Err(Error::Serialization);
            }
            let mut out: Vec<u8> = Vec::new();
            out.push(1u8);
            push_u32_be(&mut out, path.len() as u32);
            out.extend_from_slice(path.as_slice());
            proof {
                assert(out@ =~= enc_request(m@));
            }
            Ok(out)
        },
        Request::DownloadPart { path, start_byte, len } => {
            if path.len() > MAXIMUM_DATA_SIZE - 13 {
                return Err(Error::Serialization);
            }
            let mut out: Vec<u8> = Vec::new();
            out.push(2u8);
            push_u32_be(&mut out, path.len() as u32);
            out.extend_from_slice(path.as_slice());
            push_u32_be(&mut out, *start_byte);
            push_u32_be(&mut out, *len);
            proof {
                assert(out@ =~= enc_request(m@));
            }
            Ok(out)
        },
    }
}

/// Serializes a response into payload bytes; fails exactly when the message
/// does not fit in one frame.
pub fn encode_response(m: &Response) -> (r: Result<Vec<u8>, Error>)
    ensures
        match r {
            Ok(v) => resp_wf(m@) && v@ == enc_response(m@),
            Err(e) => !resp_wf(m@) && e == Error::Serialization,
        },
{
    match m {
        Response::Directory(entries) => {
            let ghost ev = entries@.map_values(|f: FileData| f@);
            proof {
                lemma_enc_fd_list_len(ev);
                assert(m@ == ResponseView::Directory(ev));
                assert(enc_response(m@).len() == 5 + enc_fd_list(ev).len());
                assert(ev.len() == entries@.len());
            }
            if entries.len() > MAXIMUM_DATA_SIZE / 20 {
                return Err(Error::Serialization);
            }
            let mut out: Vec<u8> = Vec::new();
            out.push(0u8);
            push_u32_be(&mut out, entries.len() as u32);
            let ghost prefix = out@;
            let n = entries.len();
            let mut i: usize = 0;
            while i < n
                invariant
                    i <= n,
                    n == entries@.len(),
                    n <= MAXIMUM_DATA_SIZE / 20,
                    m@ == ResponseView::Directory(ev),
                    ev == entries@.map_values(|f: FileData| f@),
                    prefix == seq![0u8] + u32_be(n as u32),
                    out@ == prefix + enc_fd_list(ev.take(i as int)),
                decreases n - i,
            {
                let f = &entries[i];
                proof {
                    lemma_enc_fd_list_len(ev);
                    assert(ev[i as int] == f@);
                    assert(ev[i as int].path.len() + 20 <= enc_fd_list(ev).len());
                    assert(enc_response(m@).len() == 5 + enc_fd_list(ev).len());
                }
                if f.path.len() > MAXIMUM_DATA_SIZE {
                    return Err(Error::Serialization);
                }
                push_u32_be(&mut out, f.path.len() as u32);
                out.extend_from_slice(f.path.as_slice());
                push_u64_be(&mut out, f.created);
                push_u64_be(&mut out, f.size);
                proof {
                    lemma_enc_fd_list_snoc(ev.take(i as int), ev[i as int]);
                    assert(ev.take(i as int).push(ev[i as int]) =~= ev.take(i + 1));
                    assert(out@ =~= prefix + enc_fd_list(ev.take(i + 1)));
                }
                i = i + 1;
            }
            proof {
                assert(ev.take(n as int) =~= ev);
            }
            if out.len() > MAXIMUM_DATA_SIZE {
                return Err(Error::Serialization);
            }
            Ok(out)
        },
        Response::Summary(n) => {
            let mut out: Vec<u8> = Vec::new();
            out.push(1u8);
            push_u32_be(&mut out, *n);
            proof {
                assert(out@ =~= enc_response(m@));
            }
            Ok(out)
        },
        Response::Part { start_byte, data, last } => {
            if data.len() > MAXIMUM_DATA_SIZE - 10 {
                return Err(Error::Serialization);
            }
            let mut out: Vec<u8> = Vec::new();
            out.push(2u8);
            push_u32_be(&mut out, *start_byte);
            push_u32_be(&mut out, data.len() as u32);
            out.extend_from_slice(data.as_slice());
            out.push(if *last {
                1u8
            } else {
                0u8
            });
            proof {
                assert(out@ =~= enc_response(m@));
            }
            Ok(out)
        },
        Response::NotAllowed => {
            let mut out: Vec<u8> = Vec::new();
            out.push(3u8);
            proof {
                assert(out@ =~= enc_response(m@));
            }
            Ok(out)
        },
    }
}

// ---------------------------------------------------------------------------
// Executable decoding.
// ---------------------------------------------------------------------------

fn parse_u32_exec(b: &Vec<u8>, pos: usize) -> (r: Option<(u32, usize)>)
    requires
        pos <= b@.len(),
    ensures
        match r {
            Some((x, p)) => parse_u32(b@, pos as int) == Some((x, p as int)) && p <= b@.len(),
            None => parse_u32(b@, pos as int) is None,
        },
{
    let n = b.len();
    if n - pos < 4 {
        None
    } else {
        let x = read_u32_be(b, pos);
        Some((x, pos + 4))
    }
}

fn parse_u64_exec(b: &Vec<u8>, pos: usize) -> (r: Option<(u64, usize)>)
    requires
        pos <= b@.len(),
    ensures
        match r {
            Some((x, p)) => parse_u64(b@, pos as int) == Some((x, p as int)) && p <= b@.len(),
            None => parse_u64(b@, pos as int) is None,
        },
{
    let n = b.len();
    if n - pos < 8 {
        None
    } else {
        let x = read_u64_be(b, pos);
        Some((x, pos + 8))
    }
}

fn parse_bytes_exec(b: &Vec<u8>, pos: usize) -> (r: Option<(Vec<u8>, usize)>)
    requires
        pos <= b@.len(),
    ensures
        match r {
            Some((v, p)) => parse_bytes(b@, pos as int) == Some((v@, p as int)) && p <= b@.len(),
            None => parse_bytes(b@, pos as int) is None,
        },
{
    match parse_u32_exec(b, pos) {
        Some((len, p)) => {
            let n = b.len();
            if len as usize <= n - p {
                let v = copy_range(b, p, len as usize);
                Some((v, p + len as usize))
            } else {
                None
            }
        },
        None => None,
    }
}

fn parse_bool_exec(b: &Vec<u8>, pos: usize) -> (r: Option<(bool, usize)>)
    requires
        pos <= b@.len(),
    ensures
        match r {
            Some((v, p)) => parse_bool(b@, pos as int) == Some((v, p as int)) && p <= b@.len(),
            None => parse_bool(b@, pos as int) is None,
        },
{
    if pos < b.len() {
        let x = b[pos];
        if x == 0 {
            Some((false, pos + 1))
        } else if x == 1 {
            Some((true, pos + 1))
        } else {
            None
        }
    } else {
        None
    }
}

fn parse_filedata_exec(b: &Vec<u8>, pos: usize) -> (r: Option<(FileData, usize)>)
    requires
        pos <= b@.len(),
    ensures
        match r {
            Some((f, p)) => parse_filedata(b@, pos as int) == Some((f@, p as int)) && p
                <= b@.len(),
            None => parse_filedata(b@, pos as int) is None,
        },
{
    match parse_bytes_exec(b, pos) {
        Some((path, p1)) => match parse_u64_exec(b, p1) {
            Some((created, p2)) => match parse_u64_exec(b, p2) {
                Some((size, p3)) => Some((FileData { path, created, size }, p3)),
                None => None,
            },
            None => None,
        },
        None => None,
    }
}

/// Prepends already-parsed entries to the outcome of parsing the rest.
spec fn with_entries(acc: Seq<FileDataView>, r: Option<(Seq<FileDataView>, int)>) -> Option<
    (Seq<FileDataView>, int),
> {
    match r {
        Some((s, q)) => Some((acc + s, q)),
        None => None,
    }
}

/// Deserializes a request payload. Succeeds exactly on the payloads that
/// [`dec_request`] accepts; a tag that names no request variant is refused
/// as [`Error::UnexpectedType`], all other malformed payloads as
/// [`Error::Serialization`].
pub fn decode_request(b: &Vec<u8>) -> (r: Result<Request, Error>)
    ensures
        match r {
            Ok(m) => dec_request(b@) == Some(m@),
            Err(e) => dec_request(b@) is None && e == req_decode_err(b@),
        },
        dec_request(b@) is Some ==> r is Ok,
{
    if b.len() < 1 {
        return Err(Error::Serialization);
    }
    let tag = b[0];
    if tag == 0 || tag == 1 {
        match parse_bytes_exec(b, 1) {
            Some((path, p)) => {
                if p == b.len() {
                    if tag == 0 {
                        Ok(Request::List { path })
                    } else {
                        Ok(Request::Download { path })
                    }
                } else {
                    Err(Error::Serialization)
                }
            },
            None => Err(Error::Serialization),
        }
    } else if tag == 2 {
        match parse_bytes_exec(b, 1) {
            Some((path, p1)) => match parse_u32_exec(b, p1) {
                Some((start_byte, p2)) => match parse_u32_exec(b, p2) {
                    Some((len, p3)) => {
                        if p3 == b.len() {
                            Ok(Request::DownloadPart { path, start_byte, len })
                        } else {
                            Err(Error::Serialization)
                        }
                    },
                    None => Err(Error::Serialization),
                },
                None => Err(Error::Serialization),
            },
            None => Err(Error::Serialization),
        }
    } else {
        Err(Error::UnexpectedType)
    }
}

/// Deserializes a response payload. Succeeds exactly on the payloads that
/// [`dec_response`] accepts; a tag that names no response variant is refused
/// as [`Error::UnexpectedType`], all other malformed payloads as
/// [`Error::Serialization`].
pub fn decode_response(b: &Vec<u8>) -> (r: Result<Response, Error>)
    ensures
        match r {
            Ok(m) => dec_response(b@) == Some(m@),
            Err(e) => dec_response(b@) is None && e == resp_decode_err(b@),
        },
        dec_response(b@) is Some ==> r is Ok,
{
    if b.len() < 1 {
        return Err(Error::Serialization);
    }
    let tag = b[0];
    if tag == 0 {
        let count = match parse_u32_exec(b, 1) {
            Some((count, _p)) => count,
            None => {
                return Err(Error::Serialization);
            },
        };
        let start: usize = 5;
        let mut entries: Vec<FileData> = Vec::new();
        let mut pos: usize = start;
        let mut i: u32 = 0;
        while i < count
            invariant
                i <= count,
                pos <= b@.len(),
                b@.len() >= 5,
                b@[0] == 0,
                parse_u32(b@, 1) == Some((count, 5int)),
                parse_fd_list(b@, 5, count as int) == with_entries(
                    entries@.map_values(|f: FileData| f@),
                    parse_fd_list(b@, pos as int, count - i),
                ),
            decreases count - i,
        {
            match parse_filedata_exec(b, pos) {
                Some((f, p)) => {
                    proof {
                        let acc = entries@.map_values(|ff: FileData| ff@);
                        let k = count - i;
                        assert(parse_fd_list(b@, pos as int, k) == with_entries(
                            seq![f@],
                            parse_fd_list(b@, p as int, k - 1),
                        ));
                        assert(with_entries(acc, with_entries(seq![f@], parse_fd_list(b@, p as int, k - 1)))
                            == with_entries(acc + seq![f@], parse_fd_list(b@, p as int, k - 1)))
                            by {
                            match parse_fd_list(b@, p as int, k - 1) {
                                Some((s, q)) => {
                                    assert(acc + (seq![f@] + s) =~= (acc + seq![f@]) + s);
                                },
                                None => {},
                            }
                        }
                        assert(entries@.push(f).map_values(|ff: FileData| ff@) =~= acc
                            + seq![f@]);
                    }
                    entries.push(f);
                    pos = p;
                    i = i + 1;
                },
                None => {
                    proof {
                        assert(parse_fd_list(b@, pos as int, count - i) is None);
                        assert(parse_fd_list(b@, 5, count as int) is None);
                    }
                    return Err(Error::Serialization);
                },
            }
        }
        proof {
            assert(parse_fd_list(b@, pos as int, 0int) == Some((
                Seq::<FileDataView>::empty(),
                pos as int,
            )));
            assert(entries@.map_values(|f: FileData| f@) + Seq::<FileDataView>::empty()
                =~= entries@.map_values(|f: FileData| f@));
        }
        if pos == b.len() {
            Ok(Response::Directory(entries))
        } else {
            Err(Error::Serialization)
        }
    } else if tag == 1 {
        match parse_u32_exec(b, 1) {
            Some((n, p)) => {
                if p == b.len() {
                    Ok(Response::Summary(n))
                } else {
                    Err(Error::Serialization)
                }
            },
            None => Err(Error::Serialization),
        }
    } else if tag == 2 {
        match parse_u32_exec(b, 1) {
            Some((start_byte, p1)) => match parse_bytes_exec(b, p1) {
                Some((data, p2)) => match parse_bool_exec(b, p2) {
                    Some((last, p3)) => {
                        if p3 == b.len() {
                            Ok(Response::Part { start_byte, data, last })
                        } else {
                            Err(Error::Serialization)
                        }
                    },
                    None => Err(Error::Serialization),
                },
                None => Err(Error::Serialization),
            },
            None => Err(Error::Serialization),
        }
    } else if tag == 3 {
        if b.len() == 1 {
            Ok(Response::NotAllowed)
        } else {
            Err(Error::Serialization)
        }
    } else {
        Err(Error::UnexpectedType)
    }
}

} // verus!
