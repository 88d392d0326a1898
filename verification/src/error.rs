//! The error taxonomy of the library.
//!
//! `ParseErr` distinguishes "this frame belongs to another protocol" (a
//! recoverable signal: the dispatcher tries the next registered protocol)
//! from "the peer closed mid-frame" (fatal for the connection). `SvcErr`
//! covers the registry: a duplicate registration and a request that names an
//! unregistered service. `MetaErr` reports a routing-metadata segment that
//! does not decode.
use vstd::prelude::*;

verus! {

/// Framing-level failures seen while accumulating a frame from a stream.
#[derive(Debug, Clone, PartialEq, Eq, Structural)]
pub enum ParseErr {
    /// The leading bytes do not carry this protocol's marker: the frame may
    /// belong to another registered protocol.
    TryOther,
    /// The stream ended before a complete frame had arrived.
    UnexpectedEof,
}

/// Registry-level failures.
#[derive(Debug, Clone, PartialEq, Eq)]
pub enum SvcErr {
    /// A service of this name is already registered under the protocol.
    Exist(Vec<u8>),
    /// The request names a service that the registry does not hold.
    NotExist(Vec<u8>),
}

/// Failures while decoding the routing-metadata segment of a tagged frame.
#[derive(Debug, Clone, PartialEq, Eq, Structural)]
pub enum MetaErr {
    /// A length-prefixed integer ran past the end of the segment.
    Truncated,
    /// A length-prefixed integer was over ten bytes or above `u64::MAX`.
    BadVarint,
    /// A field carried a wire type this codec does not accept.
    BadWireType,
    /// A required field of the request metadata is absent.
    MissingField,
}

/// The error type that every fallible operation of the library returns.
#[derive(Debug, Clone, PartialEq, Eq)]
pub enum Error {
    /// A free-form message, for service implementations.
    StrErr(String),
    /// A framing failure.
    Parse(ParseErr),
    /// A registry failure.
    Svc(SvcErr),
    /// A routing-metadata failure.
    Meta(MetaErr),
}

} // verus!
