use nanocoap::codes::{CoapCode, CoapCodeClass, CoapContentFormat, CoapMessageType, CoapVersion};
use nanocoap::error::CoapPacketError;
use nanocoap::packet::CoapPacket;

fn build_message(
    type_: CoapMessageType,
    token: &[u8],
    code: CoapCode,
    id: u16,
    payload: Option<&[u8]>,
) -> CoapPacket {
    let buffer = vec![0u8; 64];
    CoapPacket::new(buffer, type_, Some(token), Some(code), id, payload).unwrap()
}

fn message_bytes(pkt: CoapPacket) -> Vec<u8> {
    let n = pkt.msg_len();
    let mut b = pkt.into_buffer();
    b.truncate(n);
    b
}

#[test]
fn token_of_eight_bytes_succeeds() {
    let token = [1u8, 2, 3, 4, 5, 6, 7, 8];
    let buffer = vec![0u8; 16];
    let r = CoapPacket::new(buffer, CoapMessageType::Con, Some(&token), None, 1, None);
    assert!(r.is_ok());
}

#[test]
fn token_of_nine_bytes_fails() {
    let token = [1u8, 2, 3, 4, 5, 6, 7, 8, 9];
    let buffer = vec![0u8; 16];
    let r = CoapPacket::new(buffer, CoapMessageType::Con, Some(&token), None, 1, None);
    assert!(matches!(r, Err(CoapPacketError::TokenSizeError)));
}

#[test]
fn buffer_of_exact_header_size_succeeds() {
    let token = [1u8, 2];
    let buffer = vec![0u8; 6];
    let r = CoapPacket::new(buffer, CoapMessageType::Con, Some(&token), None, 1, None);
    assert!(r.is_ok());
}

#[test]
fn buffer_one_byte_short_fails() {
    let token = [1u8, 2];
    let buffer = vec![0u8; 5];
    let r = CoapPacket::new(buffer, CoapMessageType::Con, Some(&token), None, 1, None);
    assert!(matches!(r, Err(CoapPacketError::SmallBufferError)));
}

#[test]
fn payload_without_room_fails() {
    let token = [1u8, 2];
    let buffer = vec![0u8; 6];
    let payload = [9u8];
    let r = CoapPacket::new(
        buffer,
        CoapMessageType::Con,
        Some(&token),
        None,
        1,
        Some(&payload),
    );
    assert!(matches!(r, Err(CoapPacketError::PayloadWriteError)));
}

#[test]
fn confirmable_get_round_trip() {
    let pkt = build_message(
        CoapMessageType::Con,
        &[0x01, 0x02],
        CoapCode::Get,
        0x1234,
        None,
    );
    assert_eq!(pkt.msg_len(), 6);
    let bytes = message_bytes(pkt);
    assert_eq!(bytes, vec![0x42, 0x01, 0x12, 0x34, 0x01, 0x02]);
    let parsed = CoapPacket::read_packet(bytes).unwrap();
    assert_eq!(parsed.get_version(), Ok(CoapVersion::V1));
    assert_eq!(parsed.get_type(), Ok(CoapMessageType::Con));
    assert_eq!(parsed.get_token_len(), 2);
    assert_eq!(parsed.get_token().unwrap(), Some(vec![0x01, 0x02]));
    assert_eq!(parsed.get_id(), 0x1234);
    assert_eq!(parsed.get_message_code(), Ok(CoapCode::Get));
    assert_eq!(
        parsed.get_message_code_with_class(),
        Ok((CoapCodeClass::Request, CoapCode::Get))
    );
    assert_eq!(parsed.get_payload(), Vec::<u8>::new());
}

#[test]
fn empty_token_and_payload_round_trip() {
    let buffer = vec![0u8; 32];
    let payload = [0xAAu8, 0xBB];
    let pkt = CoapPacket::new(
        buffer,
        CoapMessageType::Non,
        None,
        Some(CoapCode::Post),
        7,
        Some(&payload),
    )
    .unwrap();
    assert_eq!(pkt.msg_len(), 4 + 1 + 2);
    let bytes = message_bytes(pkt);
    assert_eq!(bytes, vec![0x50, 0x02, 0x00, 0x07, 0xFF, 0xAA, 0xBB]);
    let parsed = CoapPacket::read_packet(bytes).unwrap();
    assert_eq!(parsed.get_token().unwrap(), None);
    assert_eq!(parsed.get_type(), Ok(CoapMessageType::Non));
    assert_eq!(parsed.get_payload(), vec![0xAA, 0xBB]);
}

#[test]
fn options_in_order_round_trip() {
    let mut pkt = build_message(CoapMessageType::Con, &[9], CoapCode::Get, 3, None);
    pkt.put_option(11, b"foo").unwrap();
    pkt.put_option(11, b"bar").unwrap();
    pkt.put_option(17, &[]).unwrap();
    let parsed = CoapPacket::read_packet(message_bytes(pkt)).unwrap();
    assert_eq!(parsed.uri_path(), b"/foo/bar".to_vec());
    assert_eq!(parsed.get_option_value(11), Some(b"foo".to_vec()));
    assert_eq!(parsed.get_accept(), CoapContentFormat::Text);
    assert_eq!(parsed.get_option_value(23), None);
}

#[test]
fn options_with_extended_forms_round_trip() {
    let buffer = vec![0u8; 512];
    let mut pkt = CoapPacket::new(
        buffer,
        CoapMessageType::Con,
        None,
        Some(CoapCode::Get),
        1,
        None,
    )
    .unwrap();
    // a delta of 14 takes the one-byte extended form
    pkt.put_option(14, &[0x01]).unwrap();
    // a delta of 286 and a 300-byte value take the two-byte forms
    let long_value = vec![0x5Au8; 300];
    pkt.put_option(300, &long_value).unwrap();
    let parsed = CoapPacket::read_packet(message_bytes(pkt)).unwrap();
    assert_eq!(parsed.get_option_value(14), Some(vec![0x01]));
    assert_eq!(parsed.get_option_value(300), Some(long_value));
}

#[test]
fn option_out_of_order_is_rejected() {
    let mut pkt = build_message(CoapMessageType::Con, &[9], CoapCode::Get, 3, None);
    pkt.put_option(17, &[]).unwrap();
    let r = pkt.put_option(11, b"foo");
    assert!(matches!(r, Err(CoapPacketError::OptionError)));
}

#[test]
fn option_after_payload_is_rejected() {
    let payload = [1u8, 2, 3];
    let mut pkt = build_message(CoapMessageType::Con, &[9], CoapCode::Get, 3, Some(&payload));
    let r = pkt.put_option(11, b"foo");
    assert!(matches!(r, Err(CoapPacketError::OptionError)));
}

#[test]
fn option_without_room_is_rejected() {
    let buffer = vec![0u8; 6];
    let mut pkt = CoapPacket::new(
        buffer,
        CoapMessageType::Con,
        None,
        Some(CoapCode::Get),
        1,
        None,
    )
    .unwrap();
    let r = pkt.put_option(11, b"foo");
    assert!(matches!(r, Err(CoapPacketError::SmallBufferError)));
}

#[test]
fn malformed_messages_are_parse_errors() {
    // too short for a header
    assert!(matches!(
        CoapPacket::read_packet(vec![0x40, 0x01, 0x00]),
        Err(CoapPacketError::ParseError)
    ));
    // token length nibble over eight
    assert!(matches!(
        CoapPacket::read_packet(vec![0x49, 0x01, 0x00, 0x01]),
        Err(CoapPacketError::ParseError)
    ));
    // token cut off
    assert!(matches!(
        CoapPacket::read_packet(vec![0x42, 0x01, 0x00, 0x01, 0xAA]),
        Err(CoapPacketError::ParseError)
    ));
    // payload marker with nothing behind it
    assert!(matches!(
        CoapPacket::read_packet(vec![0x40, 0x01, 0x00, 0x01, 0xFF]),
        Err(CoapPacketError::ParseError)
    ));
    // reserved option nibble
    assert!(matches!(
        CoapPacket::read_packet(vec![0x40, 0x01, 0x00, 0x01, 0xF0]),
        Err(CoapPacketError::ParseError)
    ));
    // option value runs past the end
    assert!(matches!(
        CoapPacket::read_packet(vec![0x40, 0x01, 0x00, 0x01, 0xB2, 0x61]),
        Err(CoapPacketError::ParseError)
    ));
}

#[test]
fn foreign_version_parses_but_is_flagged() {
    let bytes = vec![0x02, 0x01, 0x00, 0x01, 0xAA, 0xBB];
    let parsed = CoapPacket::read_packet(bytes).unwrap();
    assert_eq!(parsed.get_version(), Err(CoapPacketError::VersionUnknownError));
}

#[test]
fn content_reply_round_trip() {
    let request = build_message(
        CoapMessageType::Con,
        &[0x01, 0x02],
        CoapCode::Get,
        0x1234,
        None,
    );
    let request = CoapPacket::read_packet(message_bytes(request)).unwrap();
    let mut resp = vec![0u8; 32];
    let n = request
        .reply_simple(
            &mut resp,
            CoapCode::Content,
            Some(CoapContentFormat::Text),
            b"hello",
        )
        .unwrap();
    assert!(n <= 32);
    assert_eq!(n, 13);
    resp.truncate(n);
    let reply = CoapPacket::read_packet(resp).unwrap();
    assert_eq!(reply.get_type(), Ok(CoapMessageType::Ack));
    assert_eq!(reply.get_token().unwrap(), Some(vec![0x01, 0x02]));
    assert_eq!(reply.get_id(), 0x1234);
    assert_eq!(
        reply.get_message_code_with_class(),
        Ok((CoapCodeClass::Success, CoapCode::Content))
    );
    assert_eq!(reply.get_content_type(), CoapContentFormat::Text);
    assert_eq!(reply.get_payload(), b"hello".to_vec());
}

#[test]
fn undersized_reply_buffer_is_rejected() {
    let request = build_message(
        CoapMessageType::Con,
        &[0x01, 0x02],
        CoapCode::Get,
        0x1234,
        None,
    );
    let request = CoapPacket::read_packet(message_bytes(request)).unwrap();
    let mut resp = vec![0u8; 2];
    let r = request.reply_simple(
        &mut resp,
        CoapCode::Content,
        Some(CoapContentFormat::Text),
        b"hello",
    );
    assert!(matches!(r, Err(CoapPacketError::SmallBufferError)));
    // the undersized buffer was not touched
    assert_eq!(resp, vec![0, 0]);
}

#[test]
fn unallocated_format_byte_decodes_to_no_format() {
    let mut pkt = build_message(CoapMessageType::Con, &[9], CoapCode::Get, 3, None);
    pkt.put_option(12, &[99]).unwrap();
    let parsed = CoapPacket::read_packet(message_bytes(pkt)).unwrap();
    assert_eq!(parsed.get_content_type(), CoapContentFormat::NoFormat);
}

#[test]
fn absent_format_option_is_no_format() {
    let pkt = build_message(CoapMessageType::Con, &[9], CoapCode::Get, 3, None);
    let parsed = CoapPacket::read_packet(message_bytes(pkt)).unwrap();
    assert_eq!(parsed.get_content_type(), CoapContentFormat::NoFormat);
}

#[test]
fn reply_without_payload() {
    let request = build_message(CoapMessageType::Non, &[7], CoapCode::Get, 42, None);
    let request = CoapPacket::read_packet(message_bytes(request)).unwrap();
    let mut resp = vec![0u8; 16];
    request.reply_no_payload(&mut resp, CoapCode::Valid).unwrap();
    resp.truncate(4 + 1);
    let reply = CoapPacket::read_packet(resp).unwrap();
    // a non-confirmable request gets a non-confirmable reply
    assert_eq!(reply.get_type(), Ok(CoapMessageType::Non));
    assert_eq!(reply.get_message_code(), Ok(CoapCode::Valid));
    assert_eq!(reply.get_token().unwrap(), Some(vec![7]));
    assert_eq!(reply.get_id(), 42);
    assert_eq!(reply.get_payload(), Vec::<u8>::new());
}

#[test]
fn reply_to_tiny_buffer_fails() {
    let request = build_message(CoapMessageType::Non, &[7], CoapCode::Get, 42, None);
    let request = CoapPacket::read_packet(message_bytes(request)).unwrap();
    let mut resp = vec![0u8; 4];
    let r = request.reply_no_payload(&mut resp, CoapCode::Valid);
    assert!(matches!(r, Err(CoapPacketError::SmallBufferError)));
}

#[test]
fn header_mutators_rewrite_in_place() {
    let pkt = build_message(CoapMessageType::Con, &[1], CoapCode::Get, 5, None);
    let mut pkt = CoapPacket::read_packet(message_bytes(pkt)).unwrap();
    pkt.header_set_code(CoapCode::Delete);
    pkt.header_set_type(CoapMessageType::Rst);
    assert_eq!(pkt.get_message_code(), Ok(CoapCode::Delete));
    assert_eq!(pkt.get_type(), Ok(CoapMessageType::Rst));
    // version, token and id keep their values
    assert_eq!(pkt.get_version(), Ok(CoapVersion::V1));
    assert_eq!(pkt.get_token().unwrap(), Some(vec![1]));
    assert_eq!(pkt.get_id(), 5);
}

#[test]
fn empty_message_code_by_default() {
    let buffer = vec![0u8; 8];
    let pkt = CoapPacket::new(buffer, CoapMessageType::Con, None, None, 9, None).unwrap();
    let parsed = CoapPacket::read_packet(message_bytes(pkt)).unwrap();
    assert_eq!(parsed.get_message_code(), Ok(CoapCode::EmptyRequest));
}
