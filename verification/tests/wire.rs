use nanocoap::codes::CoapMessageType;
use nanocoap::error::CoapPacketError;
use nanocoap::wire::{build_header, put_option};

#[test]
fn header_bytes_are_exact() {
    let mut buffer = vec![0u8; 6];
    let n = build_header(
        &mut buffer,
        CoapMessageType::Con,
        &[0x01, 0x02],
        0x01,
        0x1234,
    )
    .unwrap();
    assert_eq!(n, 6);
    assert_eq!(buffer, vec![0x42, 0x01, 0x12, 0x34, 0x01, 0x02]);
}

#[test]
fn header_into_short_buffer_fails_untouched() {
    let mut buffer = vec![0u8; 5];
    let r = build_header(
        &mut buffer,
        CoapMessageType::Con,
        &[0x01, 0x02],
        0x01,
        0x1234,
    );
    assert!(matches!(r, Err(CoapPacketError::SmallBufferError)));
    assert_eq!(buffer, vec![0, 0, 0, 0, 0]);
}

#[test]
fn header_with_oversized_token_fails() {
    let mut buffer = vec![0u8; 16];
    let token = [0u8; 9];
    let r = build_header(&mut buffer, CoapMessageType::Con, &token, 0x01, 1);
    assert!(matches!(r, Err(CoapPacketError::TokenSizeError)));
}

#[test]
fn option_bytes_small_delta() {
    let mut buffer = vec![0u8; 16];
    let n = put_option(&mut buffer, 0, 0, 11, b"foo").unwrap();
    assert_eq!(n, 4);
    assert_eq!(&buffer[..4], &[0xB3, b'f', b'o', b'o']);
}

#[test]
fn option_bytes_one_byte_extended_delta() {
    // a delta of 13 is the smallest that takes the extended form
    let mut buffer = vec![0u8; 16];
    let n = put_option(&mut buffer, 0, 0, 13, &[0x07]).unwrap();
    assert_eq!(n, 3);
    assert_eq!(&buffer[..3], &[0xD1, 0x00, 0x07]);
}

#[test]
fn option_bytes_two_byte_extended_delta() {
    // a delta of 300 carries 300 - 269 = 31 in two extension bytes
    let mut buffer = vec![0u8; 16];
    let n = put_option(&mut buffer, 0, 0, 300, &[0x07]).unwrap();
    assert_eq!(n, 4);
    assert_eq!(&buffer[..4], &[0xE1, 0x00, 0x1F, 0x07]);
}

#[test]
fn option_bytes_extended_length() {
    // a 13-byte value takes the one-byte extended length form
    let mut buffer = vec![0u8; 32];
    let value = [0xABu8; 13];
    let n = put_option(&mut buffer, 0, 0, 1, &value).unwrap();
    assert_eq!(n, 15);
    assert_eq!(buffer[0], 0x1D);
    assert_eq!(buffer[1], 0x00);
    assert_eq!(&buffer[2..15], &value);
}

#[test]
fn option_below_last_number_is_rejected() {
    let mut buffer = vec![0u8; 16];
    let r = put_option(&mut buffer, 0, 17, 11, b"x");
    assert!(matches!(r, Err(CoapPacketError::OptionError)));
    assert_eq!(buffer, vec![0u8; 16]);
}

#[test]
fn option_without_room_is_rejected_untouched() {
    let mut buffer = vec![0u8; 3];
    let r = put_option(&mut buffer, 0, 0, 11, b"foo");
    assert!(matches!(r, Err(CoapPacketError::SmallBufferError)));
    assert_eq!(buffer, vec![0, 0, 0]);
}

#[test]
fn option_written_at_cursor_keeps_surroundings() {
    let mut buffer = vec![0x11u8; 8];
    let n = put_option(&mut buffer, 2, 0, 0, &[]).unwrap();
    assert_eq!(n, 1);
    assert_eq!(buffer, vec![0x11, 0x11, 0x00, 0x11, 0x11, 0x11, 0x11, 0x11]);
}
