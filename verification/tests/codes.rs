use nanocoap::codes::{
    CoapCode, CoapCodeClass, CoapContentFormat, CoapMessageType, CoapMethod, CoapVersion,
};
use nanocoap::credman::CredmanStatus;
use nanocoap::error::CoapPacketError;

#[test]
fn method_classification_idempotent() {
    let methods = vec![
        (CoapMethod::Get, 1),
        (CoapMethod::Post, 2),
        (CoapMethod::Put, 3),
        (CoapMethod::Delete, 4),
        (CoapMethod::Fetch, 5),
        (CoapMethod::Patch, 6),
        (CoapMethod::IPatch, 7),
    ];
    for (m, wire) in methods {
        assert_eq!(m.to_c(), wire);
        assert_eq!(CoapMethod::from_c(wire), Ok(m));
    }
}

#[test]
fn method_unknown_values() {
    assert_eq!(CoapMethod::from_c(0), Err(CoapPacketError::MethodMatchError));
    assert_eq!(CoapMethod::from_c(8), Err(CoapPacketError::MethodMatchError));
    assert_eq!(CoapMethod::from_c(65), Err(CoapPacketError::MethodMatchError));
}

#[test]
fn type_classification_idempotent() {
    let types = vec![
        (CoapMessageType::Con, 0),
        (CoapMessageType::Non, 1),
        (CoapMessageType::Ack, 2),
        (CoapMessageType::Rst, 3),
    ];
    for (t, wire) in types {
        assert_eq!(t.to_c(), wire);
        assert_eq!(CoapMessageType::from_c(wire), Ok(t));
    }
}

#[test]
fn type_unknown_values() {
    assert_eq!(CoapMessageType::from_c(4), Err(CoapPacketError::TypeMatchError));
    assert_eq!(CoapMessageType::from_c(255), Err(CoapPacketError::TypeMatchError));
}

#[test]
fn class_classification_idempotent() {
    let classes = vec![
        (CoapCodeClass::Request, 0),
        (CoapCodeClass::Success, 2),
        (CoapCodeClass::ClientError, 4),
        (CoapCodeClass::ServerError, 5),
    ];
    for (c, wire) in classes {
        assert_eq!(c.to_c(), wire);
        assert_eq!(CoapCodeClass::from_c(wire), Ok(c));
    }
}

#[test]
fn class_unknown_values() {
    for wire in [1u32, 3, 6, 7] {
        assert_eq!(CoapCodeClass::from_c(wire), Err(CoapPacketError::CodeMatchError));
    }
}

#[test]
fn code_classification_idempotent() {
    let codes = vec![
        (CoapCode::EmptyRequest, 0),
        (CoapCode::Get, 1),
        (CoapCode::Post, 2),
        (CoapCode::Put, 3),
        (CoapCode::Delete, 4),
        (CoapCode::Fetch, 5),
        (CoapCode::Patch, 6),
        (CoapCode::IPatch, 7),
        (CoapCode::Created, 65),
        (CoapCode::Deleted, 66),
        (CoapCode::Valid, 67),
        (CoapCode::Changed, 68),
        (CoapCode::Content, 69),
        (CoapCode::Continue, 95),
        (CoapCode::BadRequest, 128),
        (CoapCode::Unauthorized, 129),
        (CoapCode::BadOption, 130),
        (CoapCode::Forbidden, 131),
        (CoapCode::NotFound, 132),
        (CoapCode::MethodNotAllowed, 133),
        (CoapCode::NotAcceptable, 134),
        (CoapCode::RequestEntityIncomplete, 136),
        (CoapCode::Conflict, 137),
        (CoapCode::PreconditionFailed, 140),
        (CoapCode::RequestEntityTooLarge, 141),
        (CoapCode::UnsupportedContentFormat, 143),
        (CoapCode::UnprocessableEntity, 150),
        (CoapCode::TooManyRequests, 157),
        (CoapCode::InternalServerError, 160),
        (CoapCode::NotImplemented, 161),
        (CoapCode::BadGateway, 162),
        (CoapCode::ServiceUnavailible, 163),
        (CoapCode::GatewayTimeout, 164),
        (CoapCode::ProxyingNotSupported, 165),
    ];
    for (c, wire) in codes {
        assert_eq!(c.to_c(), wire);
        assert_eq!(CoapCode::from_c(wire), Ok(c));
    }
}

#[test]
fn code_unknown_values() {
    for wire in [8u32, 64, 96, 127, 135, 166, 255, 1000] {
        assert_eq!(CoapCode::from_c(wire), Err(CoapPacketError::CodeMatchError));
    }
}

#[test]
fn version_classification() {
    assert_eq!(CoapVersion::V1.to_c(), 1);
    assert_eq!(CoapVersion::from_c(1), Ok(CoapVersion::V1));
    assert_eq!(CoapVersion::from_c(0), Err(CoapPacketError::VersionUnknownError));
    assert_eq!(CoapVersion::from_c(2), Err(CoapPacketError::VersionUnknownError));
    assert_eq!(CoapVersion::from_c(3), Err(CoapPacketError::VersionUnknownError));
}

#[test]
fn format_classification_idempotent() {
    let formats = vec![
        (CoapContentFormat::Text, 0),
        (CoapContentFormat::Link, 40),
        (CoapContentFormat::Xml, 41),
        (CoapContentFormat::Octet, 42),
        (CoapContentFormat::Exi, 47),
        (CoapContentFormat::Json, 50),
        (CoapContentFormat::JsonPatchJson, 51),
        (CoapContentFormat::MergePatchJson, 52),
        (CoapContentFormat::Cbor, 60),
        (CoapContentFormat::SenmlJson, 110),
        (CoapContentFormat::SensmlJson, 111),
        (CoapContentFormat::SenmlCbor, 112),
        (CoapContentFormat::SensmlCbor, 113),
        (CoapContentFormat::SenmlExi, 114),
        (CoapContentFormat::SensmlExi, 115),
        (CoapContentFormat::SenmlXml, 310),
        (CoapContentFormat::SensmlXml, 311),
        (CoapContentFormat::DnsMessage, 553),
        (CoapContentFormat::NoFormat, 65535),
    ];
    for (f, wire) in formats {
        assert_eq!(f.to_c(), wire);
        assert_eq!(CoapContentFormat::from_c(wire), f);
    }
}

#[test]
fn format_unknown_is_no_format_not_error() {
    for wire in [1u32, 39, 99, 309, 554, 70000] {
        assert_eq!(CoapContentFormat::from_c(wire), CoapContentFormat::NoFormat);
    }
}

#[test]
fn credman_status_classification() {
    assert_eq!(CredmanStatus::from_value(0), CredmanStatus::CredmanOK);
    assert_eq!(CredmanStatus::from_value(-1), CredmanStatus::CredmanExist);
    assert_eq!(CredmanStatus::from_value(-2), CredmanStatus::CredmanNoSpace);
    assert_eq!(CredmanStatus::from_value(-3), CredmanStatus::CredmanNotFound);
    assert_eq!(CredmanStatus::from_value(-4), CredmanStatus::CredmanInvalid);
    assert_eq!(CredmanStatus::from_value(-5), CredmanStatus::CredmanTypeUnknown);
    assert_eq!(CredmanStatus::from_value(-6), CredmanStatus::CredmanError);
    assert_eq!(CredmanStatus::from_value(1), CredmanStatus::CredmanStatusUnknown);
    assert_eq!(CredmanStatus::from_value(-7), CredmanStatus::CredmanStatusUnknown);
}
