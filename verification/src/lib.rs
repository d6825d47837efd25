//! A lightweight file-transfer protocol over unreliable datagrams:
//! length-prefixed, checksum-guarded frames carrying typed request and
//! response messages, a server-side dispatcher with path confinement,
//! a chunked file streamer, and a client-side reassembly engine.

use vstd::prelude::*;

pub mod client;
pub mod encoding;
pub mod frame;
pub mod server;
pub mod proto;
pub mod transport;

pub use proto::{Error, FileData, Request, Response};
pub use transport::Transport;

verus! {

/// Maximum size of a single transport frame (one datagram).
pub const MAXIMUM_SIZE: usize = 65535;

/// Maximum size of the payload carried inside one frame:
/// the frame ceiling less the 4-byte length prefix and the
/// 20-byte checksum trailer.
pub const MAXIMUM_DATA_SIZE: usize = 65511;

} // verus!
