use sensor_gateway::codec::parse_i32_range;
use sensor_gateway::codec::parse_u64_range;
use sensor_gateway::codec::push_i32;
use sensor_gateway::codec::push_u64;
use sensor_gateway::frames::encode_handshake;
use sensor_gateway::frames::encode_request;
use sensor_gateway::frames::is_ack_frame;
use sensor_gateway::frames::parse_handshake;
use sensor_gateway::frames::parse_offsets_frame;
use sensor_gateway::frames::parse_reading_frame;
use sensor_gateway::request::OffsetChannel;
use sensor_gateway::request::RequestKind;

fn parse_u64_all(v: &[u8]) -> Option<u64> {
    let v = v.to_vec();
    let n = v.len();
    parse_u64_range(&v, 0, n)
}

fn parse_i32_all(v: &[u8]) -> Option<i32> {
    let v = v.to_vec();
    let n = v.len();
    parse_i32_range(&v, 0, n)
}

#[test]
fn decimal_encoding_is_canonical_text() {
    let mut out = Vec::new();
    push_u64(&mut out, 0);
    assert_eq!(out, b"0".to_vec());
    let mut out = Vec::new();
    push_u64(&mut out, 1690000000);
    assert_eq!(out, b"1690000000".to_vec());
    let mut out = Vec::new();
    push_u64(&mut out, u64::MAX);
    assert_eq!(out, b"18446744073709551615".to_vec());
    let mut out = Vec::new();
    push_i32(&mut out, -215);
    assert_eq!(out, b"-215".to_vec());
    let mut out = Vec::new();
    push_i32(&mut out, i32::MIN);
    assert_eq!(out, b"-2147483648".to_vec());
}

#[test]
fn decimal_parsing_round_trips() {
    assert_eq!(parse_u64_all(b"0"), Some(0));
    assert_eq!(parse_u64_all(b"1690000000"), Some(1690000000));
    assert_eq!(parse_u64_all(b"18446744073709551615"), Some(u64::MAX));
    assert_eq!(parse_i32_all(b"-215"), Some(-215));
    assert_eq!(parse_i32_all(b"215"), Some(215));
    assert_eq!(parse_i32_all(b"-2147483648"), Some(i32::MIN));
    assert_eq!(parse_i32_all(b"2147483647"), Some(i32::MAX));
}

#[test]
fn decimal_parsing_rejects_non_canonical_text() {
    assert_eq!(parse_u64_all(b""), None);
    assert_eq!(parse_u64_all(b"007"), None);
    assert_eq!(parse_u64_all(b"12a3"), None);
    // one past u64::MAX
    assert_eq!(parse_u64_all(b"18446744073709551616"), None);
    // far past u64::MAX
    assert_eq!(parse_u64_all(b"99999999999999999999999"), None);
    assert_eq!(parse_i32_all(b"-0"), None);
    assert_eq!(parse_i32_all(b"-"), None);
    assert_eq!(parse_i32_all(b"2147483648"), None);
    assert_eq!(parse_i32_all(b"-2147483649"), None);
    assert_eq!(parse_i32_all(b"+5"), None);
}

#[test]
fn handshake_frame_round_trips() {
    let sn = b"S100".to_vec();
    let frame = encode_handshake(&sn);
    assert_eq!(frame, b"S100\n".to_vec());
    let back = parse_handshake(&frame).expect("well-formed handshake");
    assert_eq!(back, sn);
}

#[test]
fn handshake_rejects_malformed_frames() {
    assert!(parse_handshake(&b"".to_vec()).is_none());
    assert!(parse_handshake(&b"\n".to_vec()).is_none());
    assert!(parse_handshake(&b"S100".to_vec()).is_none());
    assert!(parse_handshake(&b"S 100\n".to_vec()).is_none());
    assert!(parse_handshake(&b"S1\x0000\n".to_vec()).is_none());
}

#[test]
fn request_frames_are_one_line_each() {
    assert_eq!(encode_request(&RequestKind::GetOneSensorData, 0), b"READ\n".to_vec());
    assert_eq!(encode_request(&RequestKind::GetAllSensorData, 0), b"READ\n".to_vec());
    assert_eq!(encode_request(&RequestKind::GetOffset, 0), b"OFFSET\n".to_vec());
    assert_eq!(
        encode_request(&RequestKind::SetCalibrationOffset(OffsetChannel::Temperature), -5),
        b"CALT -5\n".to_vec()
    );
    assert_eq!(
        encode_request(&RequestKind::SetCalibrationOffset(OffsetChannel::Humidity), 12),
        b"CALH 12\n".to_vec()
    );
}

#[test]
fn reading_frame_parses_exactly() {
    let frame = b"DATA S100 RoomA 215 550 1690000000\n".to_vec();
    let rd = parse_reading_frame(&frame).expect("well-formed reading");
    assert_eq!(rd.sn, b"S100".to_vec());
    assert_eq!(rd.name, b"RoomA".to_vec());
    assert_eq!(rd.temp_tenths, 215);
    assert_eq!(rd.hum_tenths, 550);
    assert_eq!(rd.timestamp, 1690000000);
    // the reported values match the example's floats, in tenths
    assert_eq!(rd.temp_tenths, (21.5f32 * 10.0) as i32);
    assert_eq!(rd.hum_tenths, (55.0f32 * 10.0) as i32);
}

#[test]
fn reading_frame_rejects_malformations() {
    // missing terminator
    assert!(parse_reading_frame(&b"DATA S100 RoomA 215 550 1690000000".to_vec()).is_none());
    // wrong tag
    assert!(parse_reading_frame(&b"DAT S100 RoomA 215 550 1690000000\n".to_vec()).is_none());
    // missing field
    assert!(parse_reading_frame(&b"DATA S100 RoomA 215 550\n".to_vec()).is_none());
    // trailing field
    assert!(parse_reading_frame(&b"DATA S100 RoomA 215 550 1690000000 x\n".to_vec()).is_none());
    // non-canonical number
    assert!(parse_reading_frame(&b"DATA S100 RoomA 0215 550 1690000000\n".to_vec()).is_none());
    // empty name field
    assert!(parse_reading_frame(&b"DATA S100  215 550 1690000000\n".to_vec()).is_none());
    assert!(parse_reading_frame(&b"".to_vec()).is_none());
}

#[test]
fn offsets_frame_parses_exactly() {
    let frame = b"OFF -3 4\n".to_vec();
    assert_eq!(parse_offsets_frame(&frame), Some((-3, 4)));
    assert!(parse_offsets_frame(&b"OFF -3\n".to_vec()).is_none());
    assert!(parse_offsets_frame(&b"OFF -3 4 5\n".to_vec()).is_none());
    assert!(parse_offsets_frame(&b"OFX -3 4\n".to_vec()).is_none());
    assert!(parse_offsets_frame(&b"OFF -3 4".to_vec()).is_none());
}

#[test]
fn ack_frame_is_recognised_exactly() {
    assert!(is_ack_frame(&b"ACK\n".to_vec()));
    assert!(!is_ack_frame(&b"ACK\n\n".to_vec()));
    assert!(!is_ack_frame(&b"ACK".to_vec()));
    assert!(!is_ack_frame(&b"NAK\n".to_vec()));
    assert!(!is_ack_frame(&b"".to_vec()));
}
