use relay_hub::codec::{
    decode_data_frame, decode_relay_frame, encode_control_frame, encode_relay_frame,
    ControlAction, ProtocolError,
};
use relay_hub::messages::VideoChunk;

#[test]
fn relay_frame_bytes() {
    let chunk = VideoChunk { key_frame: true, payload: vec![0x01, 0x02] };
    let frame = encode_relay_frame(7, &chunk);
    assert_eq!(frame, vec![7, 0, 0, 0, 1, 0x01, 0x02]);
}

#[test]
fn relay_frame_round_trip() {
    let chunk = VideoChunk { key_frame: true, payload: vec![0x01, 0x02] };
    let frame = encode_relay_frame(7, &chunk);
    let (from, back) = decode_relay_frame(&frame).expect("frame must parse");
    assert_eq!(from, 7);
    assert!(back.key_frame);
    assert_eq!(back.payload, vec![0x01, 0x02]);
}

#[test]
fn relay_frame_round_trip_large_id() {
    let chunk = VideoChunk { key_frame: false, payload: Vec::new() };
    let frame = encode_relay_frame(0xDEADBEEF, &chunk);
    let (from, back) = decode_relay_frame(&frame).expect("frame must parse");
    assert_eq!(from, 0xDEADBEEF);
    assert!(!back.key_frame);
    assert!(back.payload.is_empty());
}

#[test]
fn relay_frame_too_short_is_rejected() {
    assert!(decode_relay_frame(&vec![1, 2, 3, 4]).is_none());
}

#[test]
fn data_frame_key_flag() {
    let chunk = decode_data_frame(&vec![1, 9, 8]).expect("non-empty frame");
    assert!(chunk.key_frame);
    assert_eq!(chunk.payload, vec![9, 8]);

    let delta = decode_data_frame(&vec![0, 5]).expect("non-empty frame");
    assert!(!delta.key_frame);
    assert_eq!(delta.payload, vec![5]);
}

#[test]
fn data_frame_nonzero_flag_is_key() {
    let chunk = decode_data_frame(&vec![42]).expect("non-empty frame");
    assert!(chunk.key_frame);
    assert!(chunk.payload.is_empty());
}

#[test]
fn empty_data_frame_is_protocol_error() {
    let r = decode_data_frame(&Vec::new());
    assert!(matches!(r, Err(ProtocolError::EmptyFrame)));
}

#[test]
fn control_frame_connect_bytes() {
    let bytes = encode_control_frame(ControlAction::Connect, 7);
    assert_eq!(bytes, b"{\"action\":\"connect\",\"id\":7}".to_vec());
}

#[test]
fn control_frame_disconnect_bytes() {
    let bytes = encode_control_frame(ControlAction::Disconnect, 4021);
    assert_eq!(bytes, b"{\"action\":\"disconnect\",\"id\":4021}".to_vec());
}

#[test]
fn control_frame_parses_as_json() {
    let bytes = encode_control_frame(ControlAction::Connect, 4294967295);
    let v: serde_json::Value = serde_json::from_slice(&bytes).expect("valid json");
    assert_eq!(v.get("action").and_then(|a| a.as_str()), Some("connect"));
    assert_eq!(v.get("id").and_then(|i| i.as_u64()), Some(4294967295));
}
