//! The failure reasons shared by the codec and the resolver.

use vstd::prelude::*;

verus! {

/// Why an encode, a decode or a resolution failed.
#[derive(Clone, Copy, Debug, PartialEq, Eq, Structural)]
pub enum DnsError {
    /// A label is longer than 63 bytes or holds a byte outside ASCII.
    InvalidLabel,
    /// A name takes more than 255 bytes on the wire.
    NameTooLong,
    /// A name follows more compression pointers than the codec allows.
    CompressionLoop,
    /// The buffer ends before the structure being read does.
    TruncatedMessage,
    /// A record is fully present but its data does not fit its type.
    MalformedRecord,
    /// A response carries another id than the query it answers.
    IdMismatch,
    /// Too many aliases were followed for one resolution.
    AliasLoop,
    /// The servers asked gave neither an answer nor a usable referral.
    NoAnswer,
    /// No response arrived in time, retries included.
    Timeout,
    /// The transport failed to exchange a datagram, retries included.
    TransportError,
}

} // verus!
