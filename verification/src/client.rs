//! Client-side download engine: reassembly of numbered parts into a file
//! buffer, detection of the end of the stream under either terminator
//! convention, detection of gaps left by lost datagrams, and the phase
//! machine that drives send, retransmit and gap-filling.
//!
//! The surrounding client owns the socket and the clock; it feeds decoded
//! responses and timeouts in and carries the decided sends out.

use vstd::prelude::*;

verus! {

/// One in-progress download: the bytes placed so far, which of them have
/// actually been received (a hole left by a lost part reads as zeros but is
/// not marked received), the total length announced by a `Summary`, and
/// whether a terminal `Part` was seen.
pub struct Reassembly {
    /// File bytes placed so far; unreceived positions hold zeros.
    pub buf: Vec<u8>,
    /// Which positions of `buf` have been received.
    pub got: Vec<bool>,
    /// The file length announced by a `Summary`, if one arrived.
    pub total: Option<u32>,
    /// Whether a `Part` with `last = true` arrived.
    pub saw_last: bool,
}

impl Reassembly {
    /// The receipt mask covers the buffer, and the buffer stays addressable
    /// by the protocol's 32-bit offsets.
    pub open spec fn wf(self) -> bool {
        self.buf@.len() == self.got@.len() && self.buf@.len() <= u32::MAX
    }

    /// Whether the byte at `i` has been received.
    pub open spec fn received(self, i: int) -> bool {
        0 <= i < self.got@.len() && self.got@[i]
    }

    /// The known end of the file: the announced total when a `Summary`
    /// arrived, else the extent received when a terminal `Part` arrived,
    /// else unknown.
    pub open spec fn expected(self) -> Option<int> {
        match self.total {
            Some(t) => Some(t as int),
            None => if self.saw_last {
                Some(self.buf@.len() as int)
            } else {
                None
            },
        }
    }

    /// The download is complete: the end is known and every byte below it
    /// has been received.
    pub open spec fn spec_complete(self) -> bool {
        match self.expected() {
            Some(e) => self.buf@.len() >= e && (forall|i: int| 0 <= i < e ==> self.received(i)),
            None => false,
        }
    }

    /// An empty download.
    pub fn new() -> (r: Self)
        ensures
            r.wf(),
            r.buf@.len() == 0,
            r.total is None,
            !r.saw_last,
    {
        Reassembly { buf: Vec::new(), got: Vec::new(), total: None, saw_last: false }
    }

    /// Places one `Part`: its data lands at its `start_byte`, growing the
    /// buffer if needed and zero-filling any gap; every placed byte is
    /// marked received, previously received bytes elsewhere stay as they
    /// were, and a terminal part is remembered.
    pub fn apply_part(&mut self, start_byte: u32, data: &Vec<u8>, last: bool)
        requires
            old(self).wf(),
            start_byte + data@.len() <= u32::MAX,
        ensures
            final(self).wf(),
            final(self).total == old(self).total,
            final(self).saw_last == (old(self).saw_last || last),
            final(self).buf@.len() == (if start_byte + data@.len() > old(self).buf@.len() {
                start_byte + data@.len()
            } else {
                old(self).buf@.len() as int
            }),
            forall|i: int|
                0 <= i < final(self).buf@.len() ==> final(self).buf@[i] == (if start_byte <= i
                    < start_byte + data@.len() {
                    data@[i - start_byte]
                } else if i < old(self).buf@.len() {
                    old(self).buf@[i]
                } else {
                    0u8
                }),
            forall|i: int|
                0 <= i < final(self).got@.len() ==> final(self).got@[i] == (if start_byte <= i
                    < start_byte + data@.len() {
                    true
                } else if i < old(self).got@.len() {
                    old(self).got@[i]
                } else {
                    false
                }),
    {
        let start = start_byte as usize;
        let dlen = data.len();
        let end = start + dlen;
        while self.buf.len() < end
            invariant
                old(self).wf(),
                self.buf@.len() == self.got@.len(),
                self.buf@.len() >= old(self).buf@.len(),
                self.buf@.len() <= end || self.buf@.len() == old(self).buf@.len(),
                end <= u32::MAX,
                forall|i: int| 0 <= i < old(self).buf@.len() ==> self.buf@[i] == old(self).buf@[i],
                forall|i: int| 0 <= i < old(self).got@.len() ==> self.got@[i] == old(self).got@[i],
                forall|i: int|
                    old(self).buf@.len() <= i < self.buf@.len() ==> self.buf@[i] == 0u8
                        && !self.got@[i],
                self.total == old(self).total,
                self.saw_last == old(self).saw_last,
            decreases end - self.buf@.len(),
        {
            self.buf.push(0u8);
            self.got.push(false);
        }
        let mut k: usize = 0;
        while k < dlen
            invariant
                k <= dlen,
                dlen == data@.len(),
                start == start_byte as int,
                start + dlen <= self.buf@.len() <= u32::MAX,
                self.buf@.len() == self.got@.len(),
                self.buf@.len() == (if start_byte + data@.len() > old(self).buf@.len() {
                    start_byte + data@.len()
                } else {
                    old(self).buf@.len() as int
                }),
                forall|i: int|
                    0 <= i < self.buf@.len() ==> self.buf@[i] == (if start <= i < start + k {
                        data@[i - start]
                    } else if i < old(self).buf@.len() {
                        old(self).buf@[i]
                    } else {
                        0u8
                    }),
                forall|i: int|
                    0 <= i < self.got@.len() ==> self.got@[i] == (if start <= i < start + k {
                        true
                    } else if i < old(self).got@.len() {
                        old(self).got@[i]
                    } else {
                        false
                    }),
                self.total == old(self).total,
                self.saw_last == old(self).saw_last,
            decreases dlen - k,
        {
            self.buf.set(start + k, data[k]);
            self.got.set(start + k, true);
            k = k + 1;
        }
        if last {
            self.saw_last = true;
        }
    }

    /// Remembers the total length announced by a `Summary`.
    pub fn apply_summary(&mut self, n: u32)
        ensures
            *final(self) == (Reassembly { total: Some(n), ..*old(self) }),
    {
        self.total = Some(n);
    }

    /// Whether the byte at `i` has been received.
    pub fn received_at(&self, i: usize) -> (r: bool)
        requires
            self.wf(),
        ensures
            r == self.received(i as int),
    {
        i < self.got.len() && self.got[i]
    }

    /// Decides completeness: the end of the stream is known and nothing
    /// below it is missing.
    pub fn complete(&self) -> (r: bool)
        requires
            self.wf(),
        ensures
            r == self.spec_complete(),
    {
        let e: usize = match self.total {
            Some(t) => t as usize,
            None => {
                if self.saw_last {
                    self.buf.len()
                } else {
                    return false;
                }
            },
        };
        if self.buf.len() < e {
            proof {
                assert(!self.spec_complete());
            }
            return false;
        }
        let mut i: usize = 0;
        while i < e
            invariant
                i <= e,
                self.wf(),
                e == (match self.expected() {
                    Some(v) => v,
                    None => 0int,
                }),
                self.expected() is Some,
                e <= self.buf@.len(),
                forall|j: int| 0 <= j < i ==> self.received(j),
            decreases e - i,
        {
            if !self.received_at(i) {
                return false;
            }
            i = i + 1;
        }
        true
    }

    /// The first missing range below the known end of the file: the gap's
    /// start and length. `None` means nothing is missing. Everything below
    /// the returned gap has been received, and the gap is maximal: the byte
    /// just past it was received, or the gap runs to the end.
    pub fn first_gap(&self) -> (r: Option<(u32, u32)>)
        requires
            self.wf(),
            self.expected() is Some,
        ensures
            match r {
                Some((s, l)) => {
                    let e = self.expected()->Some_0;
                    &&& l > 0
                    &&& s + l <= e
                    &&& forall|i: int| 0 <= i < s ==> self.received(i)
                    &&& forall|i: int| s <= i < s + l ==> !self.received(i)
                    &&& (s + l == e || self.received(s + l))
                },
                None => forall|i: int|
                    0 <= i < self.expected()->Some_0 ==> self.received(i),
            },
    {
        let e: usize = match self.total {
            Some(t) => t as usize,
            None => self.buf.len(),
        };
        let mut s: usize = 0;
        while s < e && self.received_at(s)
            invariant
                s <= e,
                self.wf(),
                e == self.expected()->Some_0,
                e <= u32::MAX,
                forall|j: int| 0 <= j < s ==> self.received(j),
            decreases e - s,
        {
            s = s + 1;
        }
        if s == e {
            return None;
        }
        let mut t: usize = s + 1;
        while t < e && !self.received_at(t)
            invariant
                s < t <= e,
                self.wf(),
                e == self.expected()->Some_0,
                e <= u32::MAX,
                forall|j: int| 0 <= j < s ==> self.received(j),
                !self.received(s as int),
                forall|j: int| s <= j < t ==> !self.received(j),
            decreases e - t,
        {
            t = t + 1;
        }
        Some((s as u32, (t - s) as u32))
    }

    /// Hands out the assembled file: the bytes up to the known end.
    pub fn assembled(self) -> (r: Vec<u8>)
        requires
            self.wf(),
            self.spec_complete(),
        ensures
            r@ == self.buf@.take(self.expected()->Some_0),
    {
        let e: usize = match self.total {
            Some(t) => t as usize,
            None => self.buf.len(),
        };
        let mut buf = self.buf;
        buf.truncate(e);
        proof {
            assert(buf@ =~= self.buf@.take(self.expected()->Some_0));
        }
        buf
    }
}

// ---------------------------------------------------------------------------
// The download phase machine.
// ---------------------------------------------------------------------------

/// Phases of one download, as the client drives it.
#[derive(Debug, Clone, Copy, PartialEq, Eq, Structural)]
pub enum DownloadPhase {
    /// Nothing sent yet.
    Idle,
    /// The request is out; no response yet.
    Awaiting,
    /// Responses are arriving.
    Receiving,
    /// The end of the stream was reached and nothing is missing, or gaps
    /// are about to be looked for.
    Complete,
    /// A missing range has been re-requested.
    GapFilling,
    /// A response of an unexpected variant arrived.
    Failed,
}

/// What the surrounding client observed since the last step.
#[derive(Debug, Clone, Copy, PartialEq, Eq, Structural)]
pub enum DownloadEvent {
    /// The request went out.
    Sent,
    /// The wait for a response expired.
    TimedOut,
    /// A datagram arrived but was dropped: frame or payload did not decode.
    BadFrame,
    /// A `Summary` or `Part` arrived and was applied to the reassembly.
    GotData,
    /// After applying data, the end of the stream is known and nothing is
    /// missing below it.
    EndSeen,
    /// After the terminal frame, a missing range was found and re-requested.
    GapFound,
    /// A response of a variant that does not belong to a download arrived.
    GotUnexpected,
}

/// The transition table of one download. The second component says whether
/// the client must (re-)send a request now: the original request on a
/// timeout while awaiting, or the range request when a gap is found.
pub open spec fn spec_download_step(p: DownloadPhase, ev: DownloadEvent) -> (DownloadPhase, bool) {
    match (p, ev) {
        (DownloadPhase::Idle, DownloadEvent::Sent) => (DownloadPhase::Awaiting, false),
        (DownloadPhase::Awaiting, DownloadEvent::TimedOut) => (DownloadPhase::Awaiting, true),
        (DownloadPhase::Awaiting, DownloadEvent::BadFrame) => (DownloadPhase::Awaiting, false),
        (DownloadPhase::Awaiting, DownloadEvent::GotData) => (DownloadPhase::Receiving, false),
        (DownloadPhase::Awaiting, DownloadEvent::GotUnexpected) => (DownloadPhase::Failed, false),
        (DownloadPhase::Receiving, DownloadEvent::GotData) => (DownloadPhase::Receiving, false),
        (DownloadPhase::Receiving, DownloadEvent::BadFrame) => (DownloadPhase::Receiving, false),
        (DownloadPhase::Receiving, DownloadEvent::EndSeen) => (DownloadPhase::Complete, false),
        (DownloadPhase::Receiving, DownloadEvent::GotUnexpected) => (DownloadPhase::Failed, false),
        (DownloadPhase::Complete, DownloadEvent::GapFound) => (DownloadPhase::GapFilling, true),
        (DownloadPhase::GapFilling, DownloadEvent::TimedOut) => (DownloadPhase::GapFilling, true),
        (DownloadPhase::GapFilling, DownloadEvent::BadFrame) => (DownloadPhase::GapFilling, false),
        (DownloadPhase::GapFilling, DownloadEvent::GotData) => (DownloadPhase::GapFilling, false),
        (DownloadPhase::GapFilling, DownloadEvent::EndSeen) => (DownloadPhase::Complete, false),
        (DownloadPhase::GapFilling, DownloadEvent::GotUnexpected) => (DownloadPhase::Failed, false),
        _ => (p, false),
    }
}

/// Advances one download by one observed event.
pub fn download_step(p: DownloadPhase, ev: DownloadEvent) -> (r: (DownloadPhase, bool))
    ensures
        r == spec_download_step(p, ev),
{
    match (p, ev) {
        (DownloadPhase::Idle, DownloadEvent::Sent) => (DownloadPhase::Awaiting, false),
        (DownloadPhase::Awaiting, DownloadEvent::TimedOut) => (DownloadPhase::Awaiting, true),
        (DownloadPhase::Awaiting, DownloadEvent::BadFrame) => (DownloadPhase::Awaiting, false),
        (DownloadPhase::Awaiting, DownloadEvent::GotData) => (DownloadPhase::Receiving, false),
        (DownloadPhase::Awaiting, DownloadEvent::GotUnexpected) => (DownloadPhase::Failed, false),
        (DownloadPhase::Receiving, DownloadEvent::GotData) => (DownloadPhase::Receiving, false),
        (DownloadPhase::Receiving, DownloadEvent::BadFrame) => (DownloadPhase::Receiving, false),
        (DownloadPhase::Receiving, DownloadEvent::EndSeen) => (DownloadPhase::Complete, false),
        (DownloadPhase::Receiving, DownloadEvent::GotUnexpected) => (DownloadPhase::Failed, false),
        (DownloadPhase::Complete, DownloadEvent::GapFound) => (DownloadPhase::GapFilling, true),
        (DownloadPhase::GapFilling, DownloadEvent::TimedOut) => (DownloadPhase::GapFilling, true),
        (DownloadPhase::GapFilling, DownloadEvent::BadFrame) => (DownloadPhase::GapFilling, false),
        (DownloadPhase::GapFilling, DownloadEvent::GotData) => (DownloadPhase::GapFilling, false),
        (DownloadPhase::GapFilling, DownloadEvent::EndSeen) => (DownloadPhase::Complete, false),
        (DownloadPhase::GapFilling, DownloadEvent::GotUnexpected) => (DownloadPhase::Failed, false),
        _ => (p, false),
    }
}

} // verus!
