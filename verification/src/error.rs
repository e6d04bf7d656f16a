use vstd::prelude::*;

verus! {

/// The ways in which an operation of this library can fail.
#[derive(Clone, Copy, PartialEq, Eq, Structural, Debug)]
pub enum DnsError {
    /// A read or write would have run off the end of a packet buffer.
    BufferOverflow,
    /// The packet is malformed: bad header, truncated section, or a chain of
    /// compression pointers that is too long.
    BadPacket,
    /// A label of a domain name is longer than 63 bytes and cannot be encoded.
    LabelTooLong,
    /// The upstream server did not answer in time.
    UpstreamTimeout,
    /// Talking to the upstream server failed.
    UpstreamIoError,
    /// The resolver followed too many delegations.
    ResolverLoop,
    /// A rule line is malformed.
    BadRule,
}

} // verus!
