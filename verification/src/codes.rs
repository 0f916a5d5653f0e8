//! The closed code tables of the protocol.
//!
//! Each table maps between typed variants and the numeric values that
//! RFC 7252 puts on the wire.  Every table is total from variants to wire
//! values and partial the other way: an unknown wire value yields a typed
//! error, except for content formats, where an unknown or absent format
//! is itself meaningful and classifies as [`CoapContentFormat::NoFormat`].

use vstd::prelude::*;
use crate::error::CoapPacketError;

verus! {

/// A request method (code class 0).
#[derive(Clone, Copy, Debug, PartialEq, Eq, Structural)]
pub enum CoapMethod {
    Get,
    Put,
    Post,
    Delete,
    Fetch,
    Patch,
    IPatch,
}

impl CoapMethod {
    /// The method's wire value: its message code with class 0.
    pub open spec fn wire(self) -> u32 {
        match self {
            CoapMethod::Get => 1,
            CoapMethod::Post => 2,
            CoapMethod::Put => 3,
            CoapMethod::Delete => 4,
            CoapMethod::Fetch => 5,
            CoapMethod::Patch => 6,
            CoapMethod::IPatch => 7,
        }
    }

    /// The classification of an arbitrary wire value as a method.
    pub open spec fn spec_from_wire(input: u32) -> Result<CoapMethod, CoapPacketError> {
        if input == 1 {
            Ok(CoapMethod::Get)
        } else if input == 2 {
            Ok(CoapMethod::Post)
        } else if input == 3 {
            Ok(CoapMethod::Put)
        } else if input == 4 {
            Ok(CoapMethod::Delete)
        } else if input == 5 {
            Ok(CoapMethod::Fetch)
        } else if input == 6 {
            Ok(CoapMethod::Patch)
        } else if input == 7 {
            Ok(CoapMethod::IPatch)
        } else {
            Err(CoapPacketError::MethodMatchError)
        }
    }

    /// Classifies a wire value as a method, or reports
    /// [`CoapPacketError::MethodMatchError`] for a value outside the table.
    pub fn from_c(input: u32) -> (r: Result<Self, CoapPacketError>)
        ensures
            r == Self::spec_from_wire(input),
    {
        match input {
            1 => Ok(CoapMethod::Get),
            2 => Ok(CoapMethod::Post),
            3 => Ok(CoapMethod::Put),
            4 => Ok(CoapMethod::Delete),
            5 => Ok(CoapMethod::Fetch),
            6 => Ok(CoapMethod::Patch),
            7 => Ok(CoapMethod::IPatch),
            _ => Err(CoapPacketError::MethodMatchError),
        }
    }

    /// The method's wire value.
    pub fn to_c(self) -> (r: u32)
        ensures
            r == self.wire(),
    {
        match self {
            CoapMethod::Get => 1,
            CoapMethod::Post => 2,
            CoapMethod::Put => 3,
            CoapMethod::Delete => 4,
            CoapMethod::Fetch => 5,
            CoapMethod::Patch => 6,
            CoapMethod::IPatch => 7,
        }
    }

    /// The method's bit in a resource's allowed-method mask.
    pub open spec fn spec_flag(self) -> u16 {
        match self {
            CoapMethod::Get => 0x01,
            CoapMethod::Post => 0x02,
            CoapMethod::Put => 0x04,
            CoapMethod::Delete => 0x08,
            CoapMethod::Fetch => 0x10,
            CoapMethod::Patch => 0x20,
            CoapMethod::IPatch => 0x40,
        }
    }

    /// The method's bit in a resource's allowed-method mask.
    pub fn to_flag(self) -> (r: u16)
        ensures
            r == self.spec_flag(),
    {
        match self {
            CoapMethod::Get => 0x01,
            CoapMethod::Post => 0x02,
            CoapMethod::Put => 0x04,
            CoapMethod::Delete => 0x08,
            CoapMethod::Fetch => 0x10,
            CoapMethod::Patch => 0x20,
            CoapMethod::IPatch => 0x40,
        }
    }
}

/// Classification of wire values as methods is idempotent: every method
/// comes back unchanged from its own wire value.
pub proof fn lemma_method_wire_total(m: CoapMethod)
    ensures
        CoapMethod::spec_from_wire(m.wire()) == Ok::<CoapMethod, CoapPacketError>(m),
{
}

/// A wire value inside the method table classifies to a method whose wire
/// value is the input itself; one outside it yields exactly
/// [`CoapPacketError::MethodMatchError`].
pub proof fn lemma_method_classification(x: u32)
    ensures
        CoapMethod::spec_from_wire(x) matches Ok(m) ==> m.wire() == x,
        CoapMethod::spec_from_wire(x) matches Err(e) ==> e == CoapPacketError::MethodMatchError,
{
}

/// A message type: the two-bit transport class of a message.
#[derive(Clone, Copy, Debug, PartialEq, Eq, Structural)]
pub enum CoapMessageType {
    /// Confirmable: the peer must acknowledge.
    Con,
    /// Non-confirmable.
    Non,
    /// Acknowledgement.
    Ack,
    /// Reset.
    Rst,
}

impl CoapMessageType {
    /// The type's two-bit wire value.
    pub open spec fn wire(self) -> u32 {
        match self {
            CoapMessageType::Con => 0,
            CoapMessageType::Non => 1,
            CoapMessageType::Ack => 2,
            CoapMessageType::Rst => 3,
        }
    }

    /// The classification of an arbitrary wire value as a message type.
    pub open spec fn spec_from_wire(input: u32) -> Result<CoapMessageType, CoapPacketError> {
        if input == 0 {
            Ok(CoapMessageType::Con)
        } else if input == 1 {
            Ok(CoapMessageType::Non)
        } else if input == 2 {
            Ok(CoapMessageType::Ack)
        } else if input == 3 {
            Ok(CoapMessageType::Rst)
        } else {
            Err(CoapPacketError::TypeMatchError)
        }
    }

    /// Classifies a wire value as a message type, or reports
    /// [`CoapPacketError::TypeMatchError`] for a value outside the table.
    pub fn from_c(input: u32) -> (r: Result<Self, CoapPacketError>)
        ensures
            r == Self::spec_from_wire(input),
    {
        match input {
            0 => Ok(CoapMessageType::Con),
            1 => Ok(CoapMessageType::Non),
            2 => Ok(CoapMessageType::Ack),
            3 => Ok(CoapMessageType::Rst),
            _ => Err(CoapPacketError::TypeMatchError),
        }
    }

    /// The type's wire value.
    pub fn to_c(self) -> (r: u32)
        ensures
            r == self.wire(),
    {
        match self {
            CoapMessageType::Con => 0,
            CoapMessageType::Non => 1,
            CoapMessageType::Ack => 2,
            CoapMessageType::Rst => 3,
        }
    }
}

/// Classification of wire values as message types is idempotent.
pub proof fn lemma_type_wire_total(t: CoapMessageType)
    ensures
        CoapMessageType::spec_from_wire(t.wire()) == Ok::<CoapMessageType, CoapPacketError>(t),
{
}

/// A wire value inside the type table round-trips; one outside it yields
/// exactly [`CoapPacketError::TypeMatchError`].
pub proof fn lemma_type_classification(x: u32)
    ensures
        CoapMessageType::spec_from_wire(x) matches Ok(t) ==> t.wire() == x,
        CoapMessageType::spec_from_wire(x) matches Err(e) ==> e == CoapPacketError::TypeMatchError,
{
}

/// The three-bit class of a message code.
#[derive(Clone, Copy, Debug, PartialEq, Eq, Structural)]
pub enum CoapCodeClass {
    /// Class 0: requests.
    Request,
    /// Class 2: success responses.
    Success,
    /// Class 4: client-error responses.
    ClientError,
    /// Class 5: server-error responses.
    ServerError,
}

impl CoapCodeClass {
    /// The class's wire value: the top three bits of the code byte.
    pub open spec fn wire(self) -> u32 {
        match self {
            CoapCodeClass::Request => 0,
            CoapCodeClass::Success => 2,
            CoapCodeClass::ClientError => 4,
            CoapCodeClass::ServerError => 5,
        }
    }

    /// The classification of an arbitrary wire value as a code class.
    pub open spec fn spec_from_wire(input: u32) -> Result<CoapCodeClass, CoapPacketError> {
        if input == 0 {
            Ok(CoapCodeClass::Request)
        } else if input == 2 {
            Ok(CoapCodeClass::Success)
        } else if input == 4 {
            Ok(CoapCodeClass::ClientError)
        } else if input == 5 {
            Ok(CoapCodeClass::ServerError)
        } else {
            Err(CoapPacketError::CodeMatchError)
        }
    }

    /// Classifies a wire value as a code class, or reports
    /// [`CoapPacketError::CodeMatchError`] for a value outside the table.
    pub fn from_c(input: u32) -> (r: Result<Self, CoapPacketError>)
        ensures
            r == Self::spec_from_wire(input),
    {
        match input {
            0 => Ok(CoapCodeClass::Request),
            2 => Ok(CoapCodeClass::Success),
            4 => Ok(CoapCodeClass::ClientError),
            5 => Ok(CoapCodeClass::ServerError),
            _ => Err(CoapPacketError::CodeMatchError),
        }
    }

    /// The class's wire value.
    pub fn to_c(self) -> (r: u32)
        ensures
            r == self.wire(),
    {
        match self {
            CoapCodeClass::Request => 0,
            CoapCodeClass::Success => 2,
            CoapCodeClass::ClientError => 4,
            CoapCodeClass::ServerError => 5,
        }
    }
}

/// Classification of wire values as code classes is idempotent.
pub proof fn lemma_class_wire_total(c: CoapCodeClass)
    ensures
        CoapCodeClass::spec_from_wire(c.wire()) == Ok::<CoapCodeClass, CoapPacketError>(c),
{
}

/// A wire value inside the class table round-trips; one outside it yields
/// exactly [`CoapPacketError::CodeMatchError`].
pub proof fn lemma_class_classification(x: u32)
    ensures
        CoapCodeClass::spec_from_wire(x) matches Ok(c) ==> c.wire() == x,
        CoapCodeClass::spec_from_wire(x) matches Err(e) ==> e == CoapPacketError::CodeMatchError,
{
}

/// A full message code: a three-bit class and a five-bit detail.
#[derive(Clone, Copy, Debug, PartialEq, Eq, Structural)]
pub enum CoapCode {
    /// 0.00: the empty message.
    EmptyRequest,
    /// 0.01
    Get,
    /// 0.03
    Put,
    /// 0.02
    Post,
    /// 0.04
    Delete,
    /// 0.05
    Fetch,
    /// 0.06
    Patch,
    /// 0.07
    IPatch,
    /// 2.01: response to POST and PUT.
    Created,
    /// 2.02: response to DELETE and POST.
    Deleted,
    /// 2.03: a validated conditional request.
    Valid,
    /// 2.04: response to POST and PUT.
    Changed,
    /// 2.05: response to GET, carrying a representation of the resource.
    Content,
    /// 2.31: block transferred, more expected.
    Continue,
    /// 4.00: the request could not be processed.
    BadRequest,
    /// 4.01: the client is not authorized.
    Unauthorized,
    /// 4.02: an option was not recognized.
    BadOption,
    /// 4.03: the client is not authenticated.
    Forbidden,
    /// 4.04: the resource was not found or is not disclosed.
    NotFound,
    /// 4.05: the method is not allowed for the resource.
    MethodNotAllowed,
    /// 4.06: no acceptable representation exists.
    NotAcceptable,
    /// 4.08: not all blocks of the request body arrived.
    RequestEntityIncomplete,
    /// 4.09: the request conflicts with the resource's state.
    Conflict,
    /// 4.12: a precondition from the request header failed.
    PreconditionFailed,
    /// 4.13: the request is too large for the server.
    RequestEntityTooLarge,
    /// 4.15: the request's media format is not supported.
    UnsupportedContentFormat,
    /// 4.22: the request was well-formed but not processable.
    UnprocessableEntity,
    /// 4.29: the client sends too many requests.
    TooManyRequests,
    /// 5.00: generic server failure.
    InternalServerError,
    /// 5.01: the request is not supported.
    NotImplemented,
    /// 5.02: a bad response came from upstream.
    BadGateway,
    /// 5.03: the server cannot currently handle the request.
    ServiceUnavailible,
    /// 5.04: no response came from upstream in time.
    GatewayTimeout,
    /// 5.05: the server will not act as a forward proxy here.
    ProxyingNotSupported,
}

impl CoapCode {
    /// The code's wire value: class times 32 plus detail, one byte.
    pub open spec fn wire(self) -> u32 {
        match self {
            CoapCode::EmptyRequest => 0,
            CoapCode::Get => 1,
            CoapCode::Post => 2,
            CoapCode::Put => 3,
            CoapCode::Delete => 4,
            CoapCode::Fetch => 5,
            CoapCode::Patch => 6,
            CoapCode::IPatch => 7,
            CoapCode::Created => 65,
            CoapCode::Deleted => 66,
            CoapCode::Valid => 67,
            CoapCode::Changed => 68,
            CoapCode::Content => 69,
            CoapCode::Continue => 95,
            CoapCode::BadRequest => 128,
            CoapCode::Unauthorized => 129,
            CoapCode::BadOption => 130,
            CoapCode::Forbidden => 131,
            CoapCode::NotFound => 132,
            CoapCode::MethodNotAllowed => 133,
            CoapCode::NotAcceptable => 134,
            CoapCode::RequestEntityIncomplete => 136,
            CoapCode::Conflict => 137,
            CoapCode::PreconditionFailed => 140,
            CoapCode::RequestEntityTooLarge => 141,
            CoapCode::UnsupportedContentFormat => 143,
            CoapCode::UnprocessableEntity => 150,
            CoapCode::TooManyRequests => 157,
            CoapCode::InternalServerError => 160,
            CoapCode::NotImplemented => 161,
            CoapCode::BadGateway => 162,
            CoapCode::ServiceUnavailible => 163,
            CoapCode::GatewayTimeout => 164,
            CoapCode::ProxyingNotSupported => 165,
        }
    }

    /// The classification of an arbitrary wire value as a message code.
    pub open spec fn spec_from_wire(input: u32) -> Result<CoapCode, CoapPacketError> {
        if input == 0 {
            Ok(CoapCode::EmptyRequest)
        } else if input == 1 {
            Ok(CoapCode::Get)
        } else if input == 2 {
            Ok(CoapCode::Post)
        } else if input == 3 {
            Ok(CoapCode::Put)
        } else if input == 4 {
            Ok(CoapCode::Delete)
        } else if input == 5 {
            Ok(CoapCode::Fetch)
        } else if input == 6 {
            Ok(CoapCode::Patch)
        } else if input == 7 {
            Ok(CoapCode::IPatch)
        } else if input == 65 {
            Ok(CoapCode::Created)
        } else if input == 66 {
            Ok(CoapCode::Deleted)
        } else if input == 67 {
            Ok(CoapCode::Valid)
        } else if input == 68 {
            Ok(CoapCode::Changed)
        } else if input == 69 {
            Ok(CoapCode::Content)
        } else if input == 95 {
            Ok(CoapCode::Continue)
        } else if input == 128 {
            Ok(CoapCode::BadRequest)
        } else if input == 129 {
            Ok(CoapCode::Unauthorized)
        } else if input == 130 {
            Ok(CoapCode::BadOption)
        } else if input == 131 {
            Ok(CoapCode::Forbidden)
        } else if input == 132 {
            Ok(CoapCode::NotFound)
        } else if input == 133 {
            Ok(CoapCode::MethodNotAllowed)
        } else if input == 134 {
            Ok(CoapCode::NotAcceptable)
        } else if input == 136 {
            Ok(CoapCode::RequestEntityIncomplete)
        } else if input == 137 {
            Ok(CoapCode::Conflict)
        } else if input == 140 {
            Ok(CoapCode::PreconditionFailed)
        } else if input == 141 {
            Ok(CoapCode::RequestEntityTooLarge)
        } else if input == 143 {
            Ok(CoapCode::UnsupportedContentFormat)
        } else if input == 150 {
            Ok(CoapCode::UnprocessableEntity)
        } else if input == 157 {
            Ok(CoapCode::TooManyRequests)
        } else if input == 160 {
            Ok(CoapCode::InternalServerError)
        } else if input == 161 {
            Ok(CoapCode::NotImplemented)
        } else if input == 162 {
            Ok(CoapCode::BadGateway)
        } else if input == 163 {
            Ok(CoapCode::ServiceUnavailible)
        } else if input == 164 {
            Ok(CoapCode::GatewayTimeout)
        } else if input == 165 {
            Ok(CoapCode::ProxyingNotSupported)
        } else {
            Err(CoapPacketError::CodeMatchError)
        }
    }

    /// Classifies a wire value as a message code, or reports
    /// [`CoapPacketError::CodeMatchError`] for a value outside the table.
    pub fn from_c(input: u32) -> (r: Result<CoapCode, CoapPacketError>)
        ensures
            r == Self::spec_from_wire(input),
    {
        match input {
            0 => Ok(CoapCode::EmptyRequest),
            1 => Ok(CoapCode::Get),
            2 => Ok(CoapCode::Post),
            3 => Ok(CoapCode::Put),
            4 => Ok(CoapCode::Delete),
            5 => Ok(CoapCode::Fetch),
            6 => Ok(CoapCode::Patch),
            7 => Ok(CoapCode::IPatch),
            65 => Ok(CoapCode::Created),
            66 => Ok(CoapCode::Deleted),
            67 => Ok(CoapCode::Valid),
            68 => Ok(CoapCode::Changed),
            69 => Ok(CoapCode::Content),
            95 => Ok(CoapCode::Continue),
            128 => Ok(CoapCode::BadRequest),
            129 => Ok(CoapCode::Unauthorized),
            130 => Ok(CoapCode::BadOption),
            131 => Ok(CoapCode::Forbidden),
            132 => Ok(CoapCode::NotFound),
            133 => Ok(CoapCode::MethodNotAllowed),
            134 => Ok(CoapCode::NotAcceptable),
            136 => Ok(CoapCode::RequestEntityIncomplete),
            137 => Ok(CoapCode::Conflict),
            140 => Ok(CoapCode::PreconditionFailed),
            141 => Ok(CoapCode::RequestEntityTooLarge),
            143 => Ok(CoapCode::UnsupportedContentFormat),
            150 => Ok(CoapCode::UnprocessableEntity),
            157 => Ok(CoapCode::TooManyRequests),
            160 => Ok(CoapCode::InternalServerError),
            161 => Ok(CoapCode::NotImplemented),
            162 => Ok(CoapCode::BadGateway),
            163 => Ok(CoapCode::ServiceUnavailible),
            164 => Ok(CoapCode::GatewayTimeout),
            165 => Ok(CoapCode::ProxyingNotSupported),
            _ => Err(CoapPacketError::CodeMatchError),
        }
    }

    /// The code's wire value.
    pub fn to_c(self) -> (r: u32)
        ensures
            r == self.wire(),
    {
        match self {
            CoapCode::EmptyRequest => 0,
            CoapCode::Get => 1,
            CoapCode::Post => 2,
            CoapCode::Put => 3,
            CoapCode::Delete => 4,
            CoapCode::Fetch => 5,
            CoapCode::Patch => 6,
            CoapCode::IPatch => 7,
            CoapCode::Created => 65,
            CoapCode::Deleted => 66,
            CoapCode::Valid => 67,
            CoapCode::Changed => 68,
            CoapCode::Content => 69,
            CoapCode::Continue => 95,
            CoapCode::BadRequest => 128,
            CoapCode::Unauthorized => 129,
            CoapCode::BadOption => 130,
            CoapCode::Forbidden => 131,
            CoapCode::NotFound => 132,
            CoapCode::MethodNotAllowed => 133,
            CoapCode::NotAcceptable => 134,
            CoapCode::RequestEntityIncomplete => 136,
            CoapCode::Conflict => 137,
            CoapCode::PreconditionFailed => 140,
            CoapCode::RequestEntityTooLarge => 141,
            CoapCode::UnsupportedContentFormat => 143,
            CoapCode::UnprocessableEntity => 150,
            CoapCode::TooManyRequests => 157,
            CoapCode::InternalServerError => 160,
            CoapCode::NotImplemented => 161,
            CoapCode::BadGateway => 162,
            CoapCode::ServiceUnavailible => 163,
            CoapCode::GatewayTimeout => 164,
            CoapCode::ProxyingNotSupported => 165,
        }
    }
}

/// Classification of wire values as message codes is idempotent.
pub proof fn lemma_code_wire_total(c: CoapCode)
    ensures
        CoapCode::spec_from_wire(c.wire()) == Ok::<CoapCode, CoapPacketError>(c),
{
}

/// A wire value inside the code table round-trips; one outside it yields
/// exactly [`CoapPacketError::CodeMatchError`].
pub proof fn lemma_code_classification(x: u32)
    ensures
        CoapCode::spec_from_wire(x) matches Ok(c) ==> c.wire() == x,
        CoapCode::spec_from_wire(x) matches Err(e) ==> e == CoapPacketError::CodeMatchError,
{
}

/// The protocol version nibble.
#[derive(Clone, Copy, Debug, PartialEq, Eq, Structural)]
pub enum CoapVersion {
    /// The single version defined by RFC 7252.
    V1,
}

impl CoapVersion {
    /// The version's two-bit wire value.
    pub open spec fn wire(self) -> u32 {
        match self {
            CoapVersion::V1 => 1,
        }
    }

    /// The classification of an arbitrary wire value as a version.
    pub open spec fn spec_from_wire(input: u32) -> Result<CoapVersion, CoapPacketError> {
        if input == 1 {
            Ok(CoapVersion::V1)
        } else {
            Err(CoapPacketError::VersionUnknownError)
        }
    }

    /// Classifies a wire value as a protocol version, or reports
    /// [`CoapPacketError::VersionUnknownError`] for anything but the single
    /// supported version.
    pub fn from_c(input: u32) -> (r: Result<Self, CoapPacketError>)
        ensures
            r == Self::spec_from_wire(input),
    {
        if input == 1 {
            Ok(CoapVersion::V1)
        } else {
            Err(CoapPacketError::VersionUnknownError)
        }
    }

    /// The version's wire value.
    pub fn to_c(self) -> (r: u32)
        ensures
            r == self.wire(),
    {
        match self {
            CoapVersion::V1 => 1,
        }
    }
}

/// Classification of wire values as versions is idempotent.
pub proof fn lemma_version_wire_total(v: CoapVersion)
    ensures
        CoapVersion::spec_from_wire(v.wire()) == Ok::<CoapVersion, CoapPacketError>(v),
{
}

/// A wire value inside the version table round-trips; one outside it
/// yields exactly [`CoapPacketError::VersionUnknownError`].
pub proof fn lemma_version_classification(x: u32)
    ensures
        CoapVersion::spec_from_wire(x) matches Ok(v) ==> v.wire() == x,
        CoapVersion::spec_from_wire(x) matches Err(e)
            ==> e == CoapPacketError::VersionUnknownError,
{
}

/// A content format carried in the Content-Format or Accept option.
///
/// Unlike the other tables this classification is total: a wire value
/// outside the table means "no recognized format" and classifies as
/// [`CoapContentFormat::NoFormat`], since the absence of a format is itself
/// meaningful to the protocol.  An absent option and an explicitly sent
/// but unallocated format byte are deliberately not distinguished.
#[derive(Clone, Copy, Debug, PartialEq, Eq, Structural)]
pub enum CoapContentFormat {
    /// text/plain;charset=utf-8 (0)
    Text,
    /// application/link-format (40)
    Link,
    /// application/xml (41)
    Xml,
    /// application/octet-stream (42)
    Octet,
    /// application/exi (47)
    Exi,
    /// application/json (50)
    Json,
    /// application/json-patch+json (51)
    JsonPatchJson,
    /// application/merge-patch+json (52)
    MergePatchJson,
    /// application/cbor (60)
    Cbor,
    /// application/senml+json (110)
    SenmlJson,
    /// application/sensml+json (111)
    SensmlJson,
    /// application/senml+cbor (112)
    SenmlCbor,
    /// application/sensml+cbor (113)
    SensmlCbor,
    /// application/senml-exi (114)
    SenmlExi,
    /// application/sensml-exi (115)
    SensmlExi,
    /// application/senml+xml (310)
    SenmlXml,
    /// application/sensml+xml (311)
    SensmlXml,
    /// application/dns-message (553)
    DnsMessage,
    /// No, or no recognized, content format.
    NoFormat,
}

impl CoapContentFormat {
    /// The format's wire value; the absent format is the reserved
    /// maximum of the option's two-byte range.
    pub open spec fn wire(self) -> u32 {
        match self {
            CoapContentFormat::Text => 0,
            CoapContentFormat::Link => 40,
            CoapContentFormat::Xml => 41,
            CoapContentFormat::Octet => 42,
            CoapContentFormat::Exi => 47,
            CoapContentFormat::Json => 50,
            CoapContentFormat::JsonPatchJson => 51,
            CoapContentFormat::MergePatchJson => 52,
            CoapContentFormat::Cbor => 60,
            CoapContentFormat::SenmlJson => 110,
            CoapContentFormat::SensmlJson => 111,
            CoapContentFormat::SenmlCbor => 112,
            CoapContentFormat::SensmlCbor => 113,
            CoapContentFormat::SenmlExi => 114,
            CoapContentFormat::SensmlExi => 115,
            CoapContentFormat::SenmlXml => 310,
            CoapContentFormat::SensmlXml => 311,
            CoapContentFormat::DnsMessage => 553,
            CoapContentFormat::NoFormat => 65535,
        }
    }

    /// The classification of an arbitrary wire value as a content format.
    pub open spec fn spec_from_wire(input: u32) -> CoapContentFormat {
        if input == 0 {
            CoapContentFormat::Text
        } else if input == 40 {
            CoapContentFormat::Link
        } else if input == 41 {
            CoapContentFormat::Xml
        } else if input == 42 {
            CoapContentFormat::Octet
        } else if input == 47 {
            CoapContentFormat::Exi
        } else if input == 50 {
            CoapContentFormat::Json
        } else if input == 51 {
            CoapContentFormat::JsonPatchJson
        } else if input == 52 {
            CoapContentFormat::MergePatchJson
        } else if input == 60 {
            CoapContentFormat::Cbor
        } else if input == 110 {
            CoapContentFormat::SenmlJson
        } else if input == 111 {
            CoapContentFormat::SensmlJson
        } else if input == 112 {
            CoapContentFormat::SenmlCbor
        } else if input == 113 {
            CoapContentFormat::SensmlCbor
        } else if input == 114 {
            CoapContentFormat::SenmlExi
        } else if input == 115 {
            CoapContentFormat::SensmlExi
        } else if input == 310 {
            CoapContentFormat::SenmlXml
        } else if input == 311 {
            CoapContentFormat::SensmlXml
        } else if input == 553 {
            CoapContentFormat::DnsMessage
        } else {
            CoapContentFormat::NoFormat
        }
    }

    /// Classifies a wire value as a content format;
    /// [`CoapContentFormat::NoFormat`] stands for every unallocated value.
    pub fn from_c(input: u32) -> (r: Self)
        ensures
            r == Self::spec_from_wire(input),
    {
        match input {
            0 => CoapContentFormat::Text,
            40 => CoapContentFormat::Link,
            41 => CoapContentFormat::Xml,
            42 => CoapContentFormat::Octet,
            47 => CoapContentFormat::Exi,
            50 => CoapContentFormat::Json,
            51 => CoapContentFormat::JsonPatchJson,
            52 => CoapContentFormat::MergePatchJson,
            60 => CoapContentFormat::Cbor,
            110 => CoapContentFormat::SenmlJson,
            111 => CoapContentFormat::SensmlJson,
            112 => CoapContentFormat::SenmlCbor,
            113 => CoapContentFormat::SensmlCbor,
            114 => CoapContentFormat::SenmlExi,
            115 => CoapContentFormat::SensmlExi,
            310 => CoapContentFormat::SenmlXml,
            311 => CoapContentFormat::SensmlXml,
            553 => CoapContentFormat::DnsMessage,
            _ => CoapContentFormat::NoFormat,
        }
    }

    /// The format's wire value.
    pub fn to_c(self) -> (r: u32)
        ensures
            r == self.wire(),
    {
        match self {
            CoapContentFormat::Text => 0,
            CoapContentFormat::Link => 40,
            CoapContentFormat::Xml => 41,
            CoapContentFormat::Octet => 42,
            CoapContentFormat::Exi => 47,
            CoapContentFormat::Json => 50,
            CoapContentFormat::JsonPatchJson => 51,
            CoapContentFormat::MergePatchJson => 52,
            CoapContentFormat::Cbor => 60,
            CoapContentFormat::SenmlJson => 110,
            CoapContentFormat::SensmlJson => 111,
            CoapContentFormat::SenmlCbor => 112,
            CoapContentFormat::SensmlCbor => 113,
            CoapContentFormat::SenmlExi => 114,
            CoapContentFormat::SensmlExi => 115,
            CoapContentFormat::SenmlXml => 310,
            CoapContentFormat::SensmlXml => 311,
            CoapContentFormat::DnsMessage => 553,
            CoapContentFormat::NoFormat => 65535,
        }
    }
}

/// Classification of wire values as content formats is idempotent: every
/// format comes back unchanged from its own wire value, and every wire
/// value that classifies to a recognized format is that format's own.
pub proof fn lemma_format_wire_total(f: CoapContentFormat)
    ensures
        CoapContentFormat::spec_from_wire(f.wire()) == f,
{
}

/// A wire value that classifies to a recognized format round-trips; every
/// other value classifies to [`CoapContentFormat::NoFormat`], never an error.
pub proof fn lemma_format_classification(x: u32)
    ensures
        CoapContentFormat::spec_from_wire(x) != CoapContentFormat::NoFormat
            ==> CoapContentFormat::spec_from_wire(x).wire() == x,
{
}

} // verus!
