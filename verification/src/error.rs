use vstd::prelude::*;

verus! {

/// Every failure the codec or the resolver can report.
///
/// Decode errors are fatal to the whole message being decoded; no partial
/// message is ever returned.  Unknown record types and unknown enumeration
/// values are not errors: they round-trip through explicit fallback variants.
#[derive(Copy, Clone, Debug, PartialEq, Eq, Structural)]
pub enum DnsError {
    /// A read or write would pass the fixed 512-byte packet capacity.
    BufferOverrun,
    /// A compression pointer does not point strictly backwards, or the
    /// bound on pointer hops was exceeded.
    MalformedCompressionPointer,
    /// A declared section count exceeds the remaining well-formed bytes,
    /// or a sub-decode of a message failed.
    MalformedMessage,
    /// The transport collaborator failed to send or receive.
    TransportError,
    /// No reply arrived within the configured bound.
    ResolutionTimeout,
    /// The delegation chain ended without an authoritative answer or
    /// NXDOMAIN within the iteration bound.
    ResolutionExhausted,
}

} // verus!
