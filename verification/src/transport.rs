//! The datagram substrate, as the protocol engine sees it: any type that
//! can distinguish addresses and move raw datagrams. The surrounding
//! program implements this for its socket of choice; the trait promises
//! nothing about delivery, which is why every use in this crate tolerates
//! loss, reordering and corruption.

use vstd::prelude::*;

verus! {

/// Any type that can distinguish addresses and send to addresses.
pub trait Transport {
    /// What the transport calls an address.
    type PeerId;

    /// What the transport calls a failure.
    type Error;

    /// Sends the buffer's bytes as one datagram to the given address,
    /// returning how many bytes were sent.
    fn send_to(&mut self, buf: &Vec<u8>, addr: &Self::PeerId) -> Result<usize, Self::Error>;

    /// Receives one datagram into the buffer, returning how many bytes
    /// arrived and from where.
    fn recv_from(&mut self, buf: &mut Vec<u8>) -> Result<(usize, Self::PeerId), Self::Error>;
}

} // verus!
