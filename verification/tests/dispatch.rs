use nanocoap::codes::{CoapCode, CoapMessageType, CoapMethod};
use nanocoap::dispatch::{CoapRequestContext, CoapResource, UdpEndpoint};
use nanocoap::error::CoapPacketError;
use nanocoap::packet::CoapPacket;

fn parsed_request(code: CoapCode, segments: &[&[u8]]) -> CoapPacket {
    let buffer = vec![0u8; 64];
    let mut pkt =
        CoapPacket::new(buffer, CoapMessageType::Con, Some(&[1]), Some(code), 1, None).unwrap();
    for seg in segments {
        pkt.put_option(11, seg).unwrap();
    }
    let n = pkt.msg_len();
    let mut bytes = pkt.into_buffer();
    bytes.truncate(n);
    CoapPacket::read_packet(bytes).unwrap()
}

fn sample_context() -> CoapRequestContext {
    CoapRequestContext::new(UdpEndpoint { addr: vec![127, 0, 0, 1], port: 5683 })
}

fn sample_table() -> Vec<CoapResource> {
    vec![
        CoapResource::new(b"/foo".to_vec(), CoapMethod::Get.to_flag()),
        CoapResource::new(
            b"/bar".to_vec(),
            CoapMethod::Get.to_flag() | CoapMethod::Post.to_flag(),
        ),
    ]
}

#[test]
fn request_dispatches_to_matching_resource() {
    let request = parsed_request(CoapCode::Get, &[b"bar"]);
    let mut ctx = sample_context();
    let resources = sample_table();
    assert_eq!(request.tree_handler(&mut ctx, &resources), Ok(1));
    assert_eq!(ctx.get_context(), Some(1));
}

#[test]
fn first_matching_resource_wins() {
    let request = parsed_request(CoapCode::Get, &[b"foo"]);
    let mut ctx = sample_context();
    let mut resources = sample_table();
    resources.push(CoapResource::new(b"/foo".to_vec(), CoapMethod::Get.to_flag()));
    assert_eq!(request.tree_handler(&mut ctx, &resources), Ok(0));
    assert_eq!(ctx.get_context(), Some(0));
}

#[test]
fn unknown_path_is_no_request() {
    let request = parsed_request(CoapCode::Get, &[b"baz"]);
    let mut ctx = sample_context();
    let resources = sample_table();
    assert_eq!(
        request.tree_handler(&mut ctx, &resources),
        Err(CoapPacketError::NoRequestError)
    );
    assert_eq!(ctx.get_context(), None);
}

#[test]
fn disallowed_method_is_no_request() {
    let request = parsed_request(CoapCode::Post, &[b"foo"]);
    let mut ctx = sample_context();
    let resources = sample_table();
    assert_eq!(
        request.tree_handler(&mut ctx, &resources),
        Err(CoapPacketError::NoRequestError)
    );
}

#[test]
fn non_request_code_is_no_request() {
    let request = parsed_request(CoapCode::Content, &[b"foo"]);
    let mut ctx = sample_context();
    let resources = sample_table();
    assert_eq!(
        request.tree_handler(&mut ctx, &resources),
        Err(CoapPacketError::NoRequestError)
    );
}

#[test]
fn root_path_matches_segmentless_request() {
    let request = parsed_request(CoapCode::Get, &[]);
    let mut ctx = sample_context();
    let resources = vec![CoapResource::new(b"/".to_vec(), CoapMethod::Get.to_flag())];
    assert_eq!(request.tree_handler(&mut ctx, &resources), Ok(0));
}

#[test]
fn context_carries_remote_endpoint() {
    let ctx = sample_context();
    let remote = ctx.get_remote_udp();
    assert_eq!(remote.addr, vec![127, 0, 0, 1]);
    assert_eq!(remote.port, 5683);
    assert_eq!(ctx.get_context(), None);
}

#[test]
fn resource_method_mask() {
    let r = CoapResource::new(b"/x".to_vec(), CoapMethod::Get.to_flag() | CoapMethod::Put.to_flag());
    assert!(r.allows(CoapMethod::Get));
    assert!(r.allows(CoapMethod::Put));
    assert!(!r.allows(CoapMethod::Post));
    assert!(!r.allows(CoapMethod::Delete));
}
