//! The error taxonomy of the packet engine.

use vstd::prelude::*;

verus! {

/// Everything that can go wrong while building, parsing, answering or
/// dispatching a CoAP message.  All of these are recoverable: the caller
/// retries with a corrected input or a larger buffer, or drops the
/// datagram.
#[derive(Clone, Copy, Debug, PartialEq, Eq, Structural)]
pub enum CoapPacketError {
    /// The header could not be written.
    HeaderBuildError,
    /// The input bytes are not a well-formed PDU.
    ParseError,
    /// A reply could not be built for a reason other than space.
    ReplyError,
    /// The target buffer is too small for what was asked of it.
    SmallBufferError,
    /// There was no room left for the payload.
    PayloadWriteError,
    /// The resource-tree walk failed.
    TreeHandleError,
    /// The wire value is not a known message type.
    TypeMatchError,
    /// The wire value is not a known message code or code class.
    CodeMatchError,
    /// The wire value is not a known request method.
    MethodMatchError,
    /// The code's class and detail do not resolve to a known code.
    ClassDetailCombinationError,
    /// A buffer could not be obtained.
    AllocationError,
    /// The dispatched handler itself failed.
    HandlingError,
    /// The message is not a request, or no resource matches it.
    NoRequestError,
    /// The wire value is not the supported protocol version.
    VersionUnknownError,
    /// A token longer than eight bytes was given or found.
    TokenSizeError,
    /// The message would not fit any supported buffer.
    PacketTooBigError,
    /// The payload is too large for the option-length encoding.
    PayloadTooBigError,
    /// An option was written out of order or past the payload marker.
    OptionError,
}

} // verus!
