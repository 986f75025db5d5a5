use vstd::prelude::*;

pub mod engine;
pub mod latency;
pub mod math;
pub mod serializable;
pub mod session;
pub mod client;
pub mod codec;
pub mod codec_msg;
pub mod shared;
pub mod wire;

verus! {

/// The kinds of failure the protocol reports. Transport failures are
/// detected by the caller that owns the socket; codec and compression
/// failures are detected here.
#[derive(Debug, Clone, Copy, PartialEq, Eq, Structural)]
pub enum ErrorKind {
    /// A socket read or write failed.
    Io,
    /// A payload could not be decoded, or held trailing bytes.
    Serialization,
    /// The transport delivered something other than a binary message.
    Network,
    /// Reserved for the compression filter. The in-memory zlib encoder
    /// cannot fail, so the library never produces this kind itself.
    Compression,
    /// The decompression filter failed: the stream was corrupt or truncated.
    Decompression,
}

} // verus!
