use rustnps::bridge::BridgeMode;
use rustnps::model::FlowCounter;
use rustnps::mux::{decode_mux_header, encode_mux_frame, frame_kind, ping_tick, MuxFrameKind, FRAME_CLOSE, FRAME_DATA, FRAME_OPEN, HEADER_LEN};
use rustnps::protocol::{check_magic, decode_frame, frame_body_len, frame_message, read_blob, write_blob, FrameError, MAX_FRAME};
use rustnps::relay::{
    flow_limit_bytes, record_flow_counter, wrap_client_transport, wrap_server_transport, FlowError, RelayPolicy, TransportLayer,
    TransportSide,
};

#[test]
fn bridge_mode_keeps_kcp() {
    assert_eq!(BridgeMode::from_text("kcp"), BridgeMode::Kcp);
    assert_eq!(BridgeMode::from_text("TCP"), BridgeMode::Tcp);
}

#[test]
fn bridge_mode_ignores_case_and_spaces() {
    assert_eq!(BridgeMode::from_text("  KCP "), BridgeMode::Kcp);
    assert_eq!(BridgeMode::from_text("udp"), BridgeMode::Tcp);
    assert_eq!(BridgeMode::from_text(""), BridgeMode::Tcp);
}

#[test]
fn metered_stream_blocks_when_flow_limit_is_exceeded() {
    let mut counter = FlowCounter::default();
    let limit = flow_limit_bytes(1);
    record_flow_counter(&mut counter, limit, 512 * 1024, 0).unwrap();
    record_flow_counter(&mut counter, limit, 512 * 1024, 0).unwrap();
    let err = record_flow_counter(&mut counter, limit, 1, 0).unwrap_err();
    assert_eq!(err, FlowError::TrafficExceeded);
    assert_eq!(counter.inlet_flow, 1024 * 1024);
}

#[test]
fn flow_limit_in_bytes() {
    assert_eq!(flow_limit_bytes(0), 0);
    assert_eq!(flow_limit_bytes(1), 1_048_576);
    assert_eq!(flow_limit_bytes(3), 3 * 1_048_576);
    assert_eq!(flow_limit_bytes(u64::MAX), u64::MAX);
}

#[test]
fn flow_counter_without_limit_saturates() {
    let mut counter = FlowCounter { inlet_flow: u64::MAX - 1, export_flow: 5 };
    record_flow_counter(&mut counter, 0, 10, 7).unwrap();
    assert_eq!(counter.inlet_flow, u64::MAX);
    assert_eq!(counter.export_flow, 12);
}

#[test]
fn flow_counter_refusal_leaves_counter_unchanged() {
    let mut counter = FlowCounter { inlet_flow: 90, export_flow: 5 };
    assert_eq!(record_flow_counter(&mut counter, 100, 3, 3), Err(FlowError::TrafficExceeded));
    assert_eq!(counter, FlowCounter { inlet_flow: 90, export_flow: 5 });
    assert_eq!(record_flow_counter(&mut counter, 100, 3, 2), Ok(()));
    assert_eq!(counter, FlowCounter { inlet_flow: 93, export_flow: 7 });
}

#[test]
fn transport_layers_prefer_encryption() {
    let c = wrap_client_transport(true, true);
    assert_eq!(c.side, TransportSide::Client);
    assert_eq!(c.layer, TransportLayer::Tls);
    assert!(!c.metered);
    assert_eq!(wrap_client_transport(false, true).layer, TransportLayer::Snappy);
    assert_eq!(wrap_client_transport(false, false).layer, TransportLayer::Plain);
}

#[test]
fn server_transport_is_metered_only_with_a_policy() {
    let none = RelayPolicy { rate_limit_kb: 0, flow_limit_mb: 0, counts_flow: false };
    let plan = wrap_server_transport(false, true, &none);
    assert_eq!(plan.side, TransportSide::Server);
    assert_eq!(plan.layer, TransportLayer::Snappy);
    assert!(!plan.metered);
    let rate = RelayPolicy { rate_limit_kb: 8, flow_limit_mb: 0, counts_flow: false };
    assert!(wrap_server_transport(false, false, &rate).metered);
    let counted = RelayPolicy { rate_limit_kb: 0, flow_limit_mb: 0, counts_flow: true };
    assert!(wrap_server_transport(true, false, &counted).metered);
}

#[test]
fn message_frame_round_trip() {
    let body = b"{\"Ping\":null}".to_vec();
    let framed = frame_message(&body).unwrap();
    assert_eq!(&framed[..4], b"RNP1");
    assert_eq!(&framed[4..8], &(body.len() as u32).to_le_bytes());
    let (decoded, used) = decode_frame(&framed).unwrap();
    assert_eq!(decoded, body);
    assert_eq!(used, framed.len());
}

#[test]
fn frame_errors() {
    assert_eq!(check_magic(b"XNP1"), Err(FrameError::BadMagic));
    assert_eq!(check_magic(b"RNP1"), Ok(()));
    assert_eq!(decode_frame(b"RNP"), Err(FrameError::Incomplete));
    assert_eq!(decode_frame(b"RNP1\x05\x00\x00\x00abc"), Err(FrameError::Incomplete));
    let too_big = ((MAX_FRAME + 1) as u32).to_le_bytes();
    assert_eq!(frame_body_len(&too_big), Err(FrameError::TooLarge));
    assert_eq!(frame_body_len(&[3, 0, 0, 0]), Ok(3));
}

#[test]
fn blob_round_trip() {
    let mut out = Vec::new();
    write_blob(&mut out, b"hello").unwrap();
    assert_eq!(out, b"\x05\x00\x00\x00hello".to_vec());
    out.extend_from_slice(b"rest");
    let (data, used) = read_blob(&out).unwrap();
    assert_eq!(data, b"hello".to_vec());
    assert_eq!(used, 9);
}

#[test]
fn mux_frame_round_trip() {
    let frame = encode_mux_frame(FRAME_DATA, 0x0102, b"xyz").unwrap();
    assert_eq!(frame.len(), HEADER_LEN + 3);
    let header = decode_mux_header(&frame[..HEADER_LEN]).unwrap();
    assert_eq!(header.kind, FRAME_DATA);
    assert_eq!(header.id, 0x0102);
    assert_eq!(header.len, 3);
    assert_eq!(&frame[HEADER_LEN..], b"xyz");
}

#[test]
fn mux_frame_kinds() {
    assert_eq!(frame_kind(FRAME_OPEN), Some(MuxFrameKind::Open));
    assert_eq!(frame_kind(FRAME_DATA), Some(MuxFrameKind::Data));
    assert_eq!(frame_kind(FRAME_CLOSE), Some(MuxFrameKind::Close));
    assert_eq!(frame_kind(9), None);
}

#[test]
fn mux_ping_counts_idle_ticks() {
    assert_eq!(ping_tick(3, 100, 98), (0, false));
    assert_eq!(ping_tick(3, 100, 90), (4, false));
    assert_eq!(ping_tick(60, 100, 0), (61, true));
}
