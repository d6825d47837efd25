//! Server-side request handling: path confinement, dispatch of decoded
//! requests to an action, the chunk schedule that paces a full download out
//! as numbered parts, positional-read semantics for partial downloads, and
//! the file-handle cache.
//!
//! Everything here is pure logic over plain values. The surrounding daemon
//! resolves paths against the filesystem, opens files and moves datagrams;
//! it feeds the outcomes in and carries the decided actions out.

use vstd::prelude::*;

use crate::proto::{Request, RequestView};

verus! {

/// The path separator byte.
pub const SEPARATOR: u8 = 47;

/// A canonical path is confined to a canonical root directory when it is
/// the root itself or lies strictly below it: the root is a proper prefix
/// and a separator follows it.
pub open spec fn spec_confined(root: Seq<u8>, canon: Seq<u8>) -> bool {
    ||| canon == root
    ||| (canon.len() > root.len() && canon.take(root.len() as int) == root && canon[root.len() as int]
        == SEPARATOR)
}

/// Decides whether a canonical path is confined to the canonical root.
pub fn is_confined(root: &Vec<u8>, canon: &Vec<u8>) -> (r: bool)
    ensures
        r == spec_confined(root@, canon@),
{
    let rl = root.len();
    let cl = canon.len();
    if cl < rl {
        proof {
            assert(!spec_confined(root@, canon@));
        }
        return false;
    }
    let mut i: usize = 0;
    while i < rl
        invariant
            i <= rl,
            rl == root@.len(),
            rl <= cl == canon@.len(),
            forall|j: int| 0 <= j < i ==> canon@[j] == root@[j],
        decreases rl - i,
    {
        if canon[i] != root[i] {
            proof {
                assert(canon@ != root@);
                assert(canon@.len() > root@.len() ==> canon@.take(root@.len() as int)[i as int]
                    != root@[i as int]);
            }
            return false;
        }
        i = i + 1;
    }
    if cl == rl {
        proof {
            assert(canon@ =~= root@);
        }
        true
    } else {
        let sep = canon[rl];
        proof {
            if sep == SEPARATOR {
                assert(canon@.take(root@.len() as int) =~= root@);
            } else {
                assert(canon@ != root@);
            }
        }
        sep == SEPARATOR
    }
}

/// What the server decides to do with one received request.
pub enum Action {
    /// Refuse: reply `NotAllowed` and touch no file.
    Deny,
    /// Stream the whole file at the canonical path, in chunks from byte 0.
    StreamFile { path: Vec<u8> },
    /// Read exactly `[start_byte, start_byte + len)` of the file at the
    /// canonical path and reply with a single part.
    ReadPart { path: Vec<u8>, start_byte: u32, len: u32 },
    /// List the immediate children of the directory at the canonical path.
    ListDir { path: Vec<u8> },
}

/// Mathematical model of an [`Action`].
pub ghost enum ActionView {
    Deny,
    StreamFile { path: Seq<u8> },
    ReadPart { path: Seq<u8>, start_byte: u32, len: u32 },
    ListDir { path: Seq<u8> },
}

impl View for Action {
    type V = ActionView;

    open spec fn view(&self) -> ActionView {
        match self {
            Action::Deny => ActionView::Deny,
            Action::StreamFile { path } => ActionView::StreamFile { path: path@ },
            Action::ReadPart { path, start_byte, len } => ActionView::ReadPart {
                path: path@,
                start_byte: *start_byte,
                len: *len,
            },
            Action::ListDir { path } => ActionView::ListDir { path: path@ },
        }
    }
}

/// The action the server takes for a request whose path resolved to
/// `canon` (`None` when resolution failed: no such file, or no permission)
/// under the canonical root `root`.
pub open spec fn spec_dispatch(req: RequestView, canon: Option<Seq<u8>>, root: Seq<u8>) -> ActionView {
    match canon {
        None => ActionView::Deny,
        Some(c) => if !spec_confined(root, c) {
            ActionView::Deny
        } else {
            match req {
                RequestView::List { path: _ } => ActionView::ListDir { path: c },
                RequestView::Download { path: _ } => ActionView::StreamFile { path: c },
                RequestView::DownloadPart { path: _, start_byte, len } => ActionView::ReadPart {
                    path: c,
                    start_byte,
                    len,
                },
            }
        },
    }
}

/// Dispatches one request: a request whose canonical resolution failed or
/// escaped the root is denied before any filesystem access; the others map
/// to their handler by variant.
pub fn dispatch(req: &Request, canon: Option<Vec<u8>>, root: &Vec<u8>) -> (a: Action)
    ensures
        a@ == spec_dispatch(req@, (match canon {
            Some(c) => Some(c@),
            None => None,
        }), root@),
{
    match canon {
        None => Action::Deny,
        Some(c) => {
            if !is_confined(root, &c) {
                Action::Deny
            } else {
                match req {
                    Request::List { path: _ } => Action::ListDir { path: c },
                    Request::Download { path: _ } => Action::StreamFile { path: c },
                    Request::DownloadPart { path: _, start_byte, len } => Action::ReadPart {
                        path: c,
                        start_byte: *start_byte,
                        len: *len,
                    },
                }
            }
        },
    }
}

/// Path confinement: whenever the canonical resolution fails or falls
/// outside the root, the dispatcher denies the request, whatever it asked —
/// so no filesystem read occurs.
pub proof fn lemma_escape_denied(req: RequestView, canon: Option<Seq<u8>>, root: Seq<u8>)
    requires
        match canon {
            Some(c) => !spec_confined(root, c),
            None => true,
        },
    ensures
        spec_dispatch(req, canon, root) == ActionView::Deny,
{
}

// ---------------------------------------------------------------------------
// The chunk schedule of a full download.
// ---------------------------------------------------------------------------

/// How many data-bearing parts a file of `n` bytes yields at chunk size
/// `c`: `n / c` rounded up.
pub open spec fn num_data_chunks(n: int, c: int) -> int
    recommends
        c > 0,
{
    (n + c - 1) / c
}

/// The length of the data chunk that starts at `i * c`: a full chunk, or
/// whatever remains of the file.
pub open spec fn chunk_len(n: int, c: int, i: int) -> int {
    if n - i * c < c {
        n - i * c
    } else {
        c
    }
}

/// Within one full-download stream the parts are contiguous: each data
/// chunk ends where the next one starts, and the last data chunk ends
/// exactly at the end of the file, where the terminal empty part stands.
/// So the `start_byte` values increase by exactly the previous part's
/// length.
pub proof fn lemma_stream_contiguous(n: int, c: int, j: int)
    requires
        c > 0,
        0 <= n,
        0 <= j < num_data_chunks(n, c),
    ensures
        j * c + chunk_len(n, c, j) == (if j == num_data_chunks(n, c) - 1 {
            n
        } else {
            (j + 1) * c
        }),
{
    let dc = num_data_chunks(n, c);
    if n == 0 {
        assert((c - 1) / c == 0) by (nonlinear_arith)
            requires
                c > 0,
        ;
        assert(false);
    }
    assert((dc - 1) * c < n <= dc * c) by (nonlinear_arith)
        requires
            c > 0,
            n > 0,
            dc == (n + c - 1) / c,
    ;
    if j == dc - 1 {
        if n - j * c < c {
        } else {
            assert(j * c + c == dc * c) by (nonlinear_arith)
                requires
                    j == dc - 1,
            ;
        }
    } else {
        assert((j + 1) * c <= (dc - 1) * c) by (nonlinear_arith)
            requires
                c > 0,
                j + 1 <= dc - 1,
        ;
        assert((j + 1) * c == j * c + c) by (nonlinear_arith);
    }
}

/// The schedule of one full download: each element is the `(start_byte,
/// length)` of one part, in the order sent. Data chunks start at `0, c, 2c,
/// ...` and a terminal empty part closes the stream, so a file of `n` bytes
/// goes out as `n / c` (rounded up) data parts plus one, with `start_byte`
/// strictly increasing by the previous part's length.
pub fn plan_chunks(n: u32, c: u32) -> (r: Vec<(u32, u32)>)
    requires
        c > 0,
    ensures
        r@.len() == num_data_chunks(n as int, c as int) + 1,
        forall|j: int|
            0 <= j < r@.len() - 1 ==> (#[trigger] r@[j]).0 == j * c && r@[j].1 == chunk_len(
                n as int,
                c as int,
                j,
            ),
        r@[r@.len() - 1] == (n, 0u32),
{
    let mut r: Vec<(u32, u32)> = Vec::new();
    let mut pos: u32 = 0;
    proof {
        assert(0int * c == 0) by (nonlinear_arith);
    }
    while pos < n
        invariant
            c > 0,
            pos <= n,
            pos == (if r@.len() * c <= n {
                r@.len() * c
            } else {
                n as int
            }),
            r@.len() > 0 ==> (r@.len() - 1) * c < n,
            forall|j: int|
                0 <= j < r@.len() ==> (#[trigger] r@[j]).0 == j * c && r@[j].1 == chunk_len(
                    n as int,
                    c as int,
                    j,
                ),
        decreases n - pos,
    {
        let ghost i = r@.len() as int;
        proof {
            assert(pos == i * c);
        }
        let len = if n - pos < c {
            n - pos
        } else {
            c
        };
        r.push((pos, len));
        proof {
            assert((i + 1) * c == i * c + c) by (nonlinear_arith);
        }
        pos = pos + len;
    }
    let ghost dc = r@.len() as int;
    proof {
        assert(0int * c == 0) by (nonlinear_arith);
        if n == 0 {
            if dc > 0 {
                assert((dc - 1) * c >= 0) by (nonlinear_arith)
                    requires
                        dc >= 1,
                        c > 0,
                ;
            }
            assert(dc == 0);
            assert((c - 1) as int / (c as int) == 0) by (nonlinear_arith)
                requires
                    c > 0,
            ;
            assert(num_data_chunks(0, c as int) == 0);
        } else {
            assert(dc >= 1);
            assert(n <= dc * c);
            assert((dc - 1) * c < n);
            assert(dc == (n + c - 1) / (c as int)) by (nonlinear_arith)
                requires
                    c > 0,
                    dc >= 1,
                    (dc - 1) * c < n <= dc * c,
            ;
        }
    }
    r.push((n, 0u32));
    r
}

// ---------------------------------------------------------------------------
// Positional reads.
// ---------------------------------------------------------------------------

/// The bytes a positional read of `[start, start + len)` returns from a
/// file whose content is `content`: exactly that range, or nothing when the
/// range leaves the file.
pub open spec fn spec_read_range(content: Seq<u8>, start: int, len: int) -> Option<Seq<u8>> {
    if 0 <= start && start + len <= content.len() {
        Some(content.subrange(start, start + len))
    } else {
        None
    }
}

/// Reads exactly `[start_byte, start_byte + len)` from in-memory content;
/// fails exactly when the range does not lie inside it. A short read is
/// never returned.
pub fn read_range(content: &Vec<u8>, start_byte: u32, len: u32) -> (r: Option<Vec<u8>>)
    ensures
        match r {
            Some(v) => spec_read_range(content@, start_byte as int, len as int) == Some(v@),
            None => spec_read_range(content@, start_byte as int, len as int) is None,
        },
{
    let n = content.len();
    if len as usize > n {
        return None;
    }
    if start_byte as usize > n - len as usize {
        return None;
    }
    Some(crate::encoding::copy_range(content, start_byte as usize, len as usize))
}

/// Idempotence of partial downloads: the bytes served for a range are a
/// function of the file content, the start and the length alone, so two
/// requests for the same range of unchanged content are answered with
/// byte-identical data.
pub proof fn lemma_download_part_idempotent(
    content: Seq<u8>,
    start: int,
    len: int,
    first: Option<Seq<u8>>,
    second: Option<Seq<u8>>,
)
    requires
        first == spec_read_range(content, start, len),
        second == spec_read_range(content, start, len),
    ensures
        first == second,
{
}

// ---------------------------------------------------------------------------
// The file-handle cache.
// ---------------------------------------------------------------------------

/// The key side of the file-handle cache: canonical paths, each held once,
/// in insertion order. The daemon keeps the open read handles in a parallel
/// table indexed by the slot numbers this type hands out, so repeated
/// requests for the same file reuse one handle.
pub struct HandleCache {
    /// The cached canonical paths; slot `i` of the daemon's handle table
    /// belongs to `keys[i]`.
    pub keys: Vec<Vec<u8>>,
}

impl HandleCache {
    /// Every path is cached at most once.
    pub open spec fn wf(self) -> bool {
        forall|i: int, j: int|
            0 <= i < j < self.keys@.len() ==> #[trigger] self.keys@[i]@ != #[trigger] self.keys@[j]@
    }

    /// Whether some slot holds `path`.
    pub open spec fn contains_key(self, path: Seq<u8>) -> bool {
        exists|i: int| 0 <= i < self.keys@.len() && #[trigger] self.keys@[i]@ == path
    }

    /// An empty cache.
    pub fn new() -> (c: Self)
        ensures
            c.wf(),
            c.keys@.len() == 0,
    {
        HandleCache { keys: Vec::new() }
    }

    /// The slot caching `path`, if any.
    pub fn find(&self, path: &Vec<u8>) -> (r: Option<usize>)
        ensures
            match r {
                Some(i) => i < self.keys@.len() && self.keys@[i as int]@ == path@,
                None => !self.contains_key(path@),
            },
    {
        let n = self.keys.len();
        let mut i: usize = 0;
        while i < n
            invariant
                i <= n,
                n == self.keys@.len(),
                forall|j: int| 0 <= j < i ==> #[trigger] self.keys@[j]@ != path@,
            decreases n - i,
        {
            if crate::encoding::bytes_eq(&self.keys[i], path) {
                return Some(i);
            }
            i = i + 1;
        }
        None
    }

    /// The slot for `path`: the one already caching it, or a fresh slot at
    /// the end. The second result says whether the slot is fresh, in which
    /// case the caller must open the file and store the handle there.
    pub fn get_or_insert(&mut self, path: Vec<u8>) -> (r: (usize, bool))
        requires
            old(self).wf(),
        ensures
            final(self).wf(),
            r.1 == !old(self).contains_key(path@),
            r.1 ==> final(self).keys@ == old(self).keys@.push(path) && r.0
                == old(self).keys@.len(),
            !r.1 ==> *final(self) == *old(self) && r.0 < final(self).keys@.len()
                && final(self).keys@[r.0 as int]@ == path@,
    {
        match self.find(&path) {
            Some(i) => (i, false),
            None => {
                let slot = self.keys.len();
                self.keys.push(path);
                proof {
                    assert forall|i: int, j: int|
                        0 <= i < j < self.keys@.len() implies #[trigger] self.keys@[i]@
                        != #[trigger] self.keys@[j]@ by {
                        if j < self.keys@.len() - 1 {
                            assert(old(self).keys@[i]@ != old(self).keys@[j]@);
                        } else {
                            assert(self.keys@[i]@ == old(self).keys@[i]@);
                        }
                    }
                }
                (slot, true)
            },
        }
    }
}

} // verus!
