use sensor_gateway::errors::overall_code;
use sensor_gateway::errors::ErrorKind;
use sensor_gateway::errors::CODE_SUCCESS;
use sensor_gateway::facade::decode_command;
use sensor_gateway::request::build_command;
use sensor_gateway::request::kind_of_id;
use sensor_gateway::request::OffsetChannel;
use sensor_gateway::request::RequestKind;

#[test]
fn request_ids_map_to_the_closed_kind_set() {
    assert_eq!(kind_of_id(1), Some(RequestKind::GetAllSensorData));
    assert_eq!(kind_of_id(2), Some(RequestKind::GetOneSensorData));
    assert_eq!(kind_of_id(3), Some(RequestKind::GetOffset));
    assert_eq!(kind_of_id(4), Some(RequestKind::GetOffset));
    assert_eq!(kind_of_id(5), Some(RequestKind::SetCalibrationOffset(OffsetChannel::Temperature)));
    assert_eq!(kind_of_id(6), Some(RequestKind::SetCalibrationOffset(OffsetChannel::Humidity)));
    assert_eq!(kind_of_id(0), None);
    assert_eq!(kind_of_id(7), None);
    assert_eq!(kind_of_id(-1), None);
}

#[test]
fn overall_code_is_the_first_failure_or_success() {
    assert_eq!(overall_code(&vec![]), 0);
    assert_eq!(overall_code(&vec![0, 0, 0]), 0);
    assert_eq!(overall_code(&vec![0, 3, 2]), 3);
    assert_eq!(overall_code(&vec![4]), 4);
}

#[test]
fn error_codes_are_stable_and_distinct_from_success() {
    assert_eq!(CODE_SUCCESS, 0);
    assert_eq!(ErrorKind::UnsupportedRequest.code(), 1);
    assert_eq!(ErrorKind::DeviceNotConnected.code(), 2);
    assert_eq!(ErrorKind::DeviceTimeout.code(), 3);
    assert_eq!(ErrorKind::ProtocolError.code(), 4);
    assert_eq!(ErrorKind::InvalidParameters.code(), 5);
}

#[test]
fn build_command_validates_fields_by_kind() {
    // a per-device kind needs an SN
    let c = build_command(2, Some(b"S100".to_vec()), true, None).expect("valid");
    assert_eq!(c.kind, RequestKind::GetOneSensorData);
    assert_eq!(c.sn, Some(b"S100".to_vec()));
    assert!(c.right_now);
    assert_eq!(c.offset, None);
    assert_eq!(build_command(2, None, true, None), Err(ErrorKind::InvalidParameters));
    // the all-devices kind carries no SN
    let c = build_command(1, None, false, None).expect("valid");
    assert_eq!(c.kind, RequestKind::GetAllSensorData);
    assert_eq!(c.sn, None);
    // a calibration kind needs an offset that fits in i32
    let c = build_command(5, Some(b"S100".to_vec()), true, Some(-5)).expect("valid");
    assert_eq!(c.offset, Some(-5));
    assert_eq!(
        build_command(5, Some(b"S100".to_vec()), true, None),
        Err(ErrorKind::InvalidParameters)
    );
    assert_eq!(
        build_command(5, Some(b"S100".to_vec()), true, Some(1i64 << 40)),
        Err(ErrorKind::InvalidParameters)
    );
    // an identifier outside the closed set is unsupported
    assert_eq!(build_command(9, Some(b"S100".to_vec()), true, None),
        Err(ErrorKind::UnsupportedRequest));
}

fn parse(text: &str) -> serde_json::Value {
    serde_json::from_str(text).expect("json")
}

#[test]
fn json_bodies_decode_into_commands() {
    let v = parse("{\"RequestId\":2,\"SN\":\"S100\",\"RightNow\":true}");
    let c = decode_command(&v).expect("valid command");
    assert_eq!(c.kind, RequestKind::GetOneSensorData);
    assert_eq!(c.sn, Some(b"S100".to_vec()));
    assert!(c.right_now);
    let v = parse("{\"RequestId\":5,\"SN\":\"S100\",\"RightNow\":true,\"Offset\":-5}");
    let c = decode_command(&v).expect("valid command");
    assert_eq!(c.kind, RequestKind::SetCalibrationOffset(OffsetChannel::Temperature));
    assert_eq!(c.offset, Some(-5));
}

#[test]
fn json_bodies_with_bad_fields_decode_to_typed_errors() {
    let v = parse("{\"RequestId\":9,\"SN\":\"S100\"}");
    assert_eq!(decode_command(&v), Err(ErrorKind::UnsupportedRequest));
    let v = parse("{\"SN\":\"S100\"}");
    assert_eq!(decode_command(&v), Err(ErrorKind::UnsupportedRequest));
    let v = parse("{\"RequestId\":2}");
    assert_eq!(decode_command(&v), Err(ErrorKind::InvalidParameters));
    let v = parse("{\"RequestId\":5,\"SN\":\"S100\"}");
    assert_eq!(decode_command(&v), Err(ErrorKind::InvalidParameters));
    // a non-integer RequestId is outside the closed set too
    let v = parse("{\"RequestId\":\"two\",\"SN\":\"S100\"}");
    assert_eq!(decode_command(&v), Err(ErrorKind::UnsupportedRequest));
    // RightNow defaults to false when absent
    let v = parse("{\"RequestId\":2,\"SN\":\"S100\"}");
    let c = decode_command(&v).expect("valid command");
    assert!(!c.right_now);
}
