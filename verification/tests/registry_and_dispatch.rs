use sensor_gateway::dispatch::begin_exchange;
use sensor_gateway::dispatch::cached_result;
use sensor_gateway::dispatch::finish_exchange;
use sensor_gateway::dispatch::BeginStep;
use sensor_gateway::dispatch::CommandResult;
use sensor_gateway::dispatch::ExchangeOutcome;
use sensor_gateway::errors::ErrorKind;
use sensor_gateway::handshake::process_handshake;
use sensor_gateway::handshake::HandshakeEvent;
use sensor_gateway::handshake::HandshakeResult;
use sensor_gateway::registry::ConnectionRegistry;
use sensor_gateway::request::RequestKind;

#[test]
fn register_then_get_returns_the_connection() {
    let mut reg = ConnectionRegistry::new();
    assert_eq!(reg.get(&b"S100".to_vec()), None);
    let evicted = reg.register(b"S100".to_vec(), 7);
    assert_eq!(evicted, None);
    assert_eq!(reg.get(&b"S100".to_vec()), Some(7));
}

#[test]
fn reregistration_replaces_and_hands_back_the_old_connection() {
    let mut reg = ConnectionRegistry::new();
    assert_eq!(reg.register(b"S100".to_vec(), 1), None);
    // the device reconnects: the old connection must be closed and the
    // new link served from now on
    let evicted = reg.register(b"S100".to_vec(), 2);
    assert_eq!(evicted, Some(1));
    assert_eq!(reg.get(&b"S100".to_vec()), Some(2));
}

#[test]
fn remove_is_idempotent() {
    let mut reg = ConnectionRegistry::new();
    reg.register(b"S100".to_vec(), 1);
    assert_eq!(reg.remove(&b"S100".to_vec()), Some(1));
    assert_eq!(reg.get(&b"S100".to_vec()), None);
    assert_eq!(reg.remove(&b"S100".to_vec()), None);
    assert_eq!(reg.remove(&b"ghost".to_vec()), None);
}

#[test]
fn snapshot_lists_sns_in_ascending_order() {
    let mut reg = ConnectionRegistry::new();
    reg.register(b"S300".to_vec(), 3);
    reg.register(b"S100".to_vec(), 1);
    reg.register(b"S200".to_vec(), 2);
    let sns = reg.snapshot_sns();
    assert_eq!(sns, vec![b"S100".to_vec(), b"S200".to_vec(), b"S300".to_vec()]);
}

#[test]
fn snapshot_all_carries_the_cached_state_in_order() {
    let mut reg = ConnectionRegistry::new();
    reg.register(b"S200".to_vec(), 2);
    reg.register(b"S100".to_vec(), 1);
    // a successful exchange refreshes S100's cache
    let sn = b"S100".to_vec();
    begin_exchange(&mut reg, &sn, &RequestKind::GetOneSensorData, 0);
    finish_exchange(&mut reg, &sn, &RequestKind::GetOneSensorData,
        ExchangeOutcome::Reply(b"DATA S100 RoomA 215 550 1690000000\n".to_vec()));
    let all = reg.snapshot_all();
    assert_eq!(all.len(), 2);
    assert_eq!(all[0].sn, b"S100".to_vec());
    assert_eq!(all[0].conn, 1);
    assert_eq!(all[0].name, b"RoomA".to_vec());
    assert_eq!(all[0].temp_tenths, 215);
    assert_eq!(all[0].hum_tenths, 550);
    assert_eq!(all[0].timestamp, 1690000000);
    assert_eq!(all[1].sn, b"S200".to_vec());
    assert_eq!(all[1].conn, 2);
    // S200 was never read: its cache is still the fresh-link state
    assert_eq!(all[1].name, Vec::<u8>::new());
    assert_eq!(all[1].temp_tenths, 0);
    assert_eq!(all[1].hum_tenths, 0);
}

#[test]
fn dispatch_to_absent_sn_fails_without_io() {
    // an empty registry: no frame is produced, so no device I/O happens
    let mut reg = ConnectionRegistry::new();
    let step = begin_exchange(&mut reg, &b"ghost".to_vec(), &RequestKind::GetOneSensorData, 0);
    match step {
        BeginStep::Fail(e) => {
            assert_eq!(e, ErrorKind::DeviceNotConnected);
            assert_eq!(e.code(), 2);
        }
        _ => panic!("expected an immediate failure"),
    }
}

#[test]
fn successful_read_exchange_returns_the_reported_fields() {
    let mut reg = ConnectionRegistry::new();
    reg.register(b"S100".to_vec(), 7);
    let sn = b"S100".to_vec();
    let step = begin_exchange(&mut reg, &sn, &RequestKind::GetOneSensorData, 0);
    let (conn, frame) = match step {
        BeginStep::Send { conn, frame } => (conn, frame),
        _ => panic!("expected a frame to send"),
    };
    assert_eq!(conn, 7);
    assert_eq!(frame, b"READ\n".to_vec());
    let reply = ExchangeOutcome::Reply(b"DATA S100 RoomA 215 550 1690000000\n".to_vec());
    let result = finish_exchange(&mut reg, &sn, &RequestKind::GetOneSensorData, reply);
    match result {
        CommandResult::Reading(rd) => {
            assert_eq!(rd.sn, b"S100".to_vec());
            assert_eq!(rd.name, b"RoomA".to_vec());
            assert_eq!(rd.temp_tenths, 215);
            assert_eq!(rd.hum_tenths, 550);
            assert_eq!(rd.timestamp, 1690000000);
        }
        _ => panic!("expected a reading"),
    }
    // the exchange refreshed the cache: a RightNow:false read serves it
    let cached = cached_result(&reg, &sn, &RequestKind::GetOneSensorData);
    match cached {
        CommandResult::Reading(rd) => {
            assert_eq!(rd.name, b"RoomA".to_vec());
            assert_eq!(rd.temp_tenths, 215);
            assert_eq!(rd.hum_tenths, 550);
            assert_eq!(rd.timestamp, 1690000000);
        }
        _ => panic!("expected the cached reading"),
    }
}

#[test]
fn timeout_reports_device_timeout_and_keeps_the_link() {
    let mut reg = ConnectionRegistry::new();
    reg.register(b"S100".to_vec(), 7);
    let sn = b"S100".to_vec();
    let step = begin_exchange(&mut reg, &sn, &RequestKind::GetOneSensorData, 0);
    assert!(matches!(step, BeginStep::Send { .. }));
    let result = finish_exchange(&mut reg, &sn, &RequestKind::GetOneSensorData,
        ExchangeOutcome::Timeout);
    match result {
        CommandResult::Failure(e) => assert_eq!(e, ErrorKind::DeviceTimeout),
        _ => panic!("expected a timeout failure"),
    }
    // still registered: a later, well-behaved exchange succeeds
    assert_eq!(reg.get(&sn), Some(7));
    let step = begin_exchange(&mut reg, &sn, &RequestKind::GetOneSensorData, 0);
    assert!(matches!(step, BeginStep::Send { .. }));
    let reply = ExchangeOutcome::Reply(b"DATA S100 RoomA 210 500 1690000001\n".to_vec());
    let result = finish_exchange(&mut reg, &sn, &RequestKind::GetOneSensorData, reply);
    assert!(matches!(result, CommandResult::Reading(_)));
}

#[test]
fn dead_socket_reports_not_connected_and_evicts() {
    let mut reg = ConnectionRegistry::new();
    reg.register(b"S100".to_vec(), 7);
    let sn = b"S100".to_vec();
    let step = begin_exchange(&mut reg, &sn, &RequestKind::GetOneSensorData, 0);
    assert!(matches!(step, BeginStep::Send { .. }));
    let result = finish_exchange(&mut reg, &sn, &RequestKind::GetOneSensorData,
        ExchangeOutcome::Disconnected);
    match result {
        CommandResult::Failure(e) => assert_eq!(e, ErrorKind::DeviceNotConnected),
        _ => panic!("expected a not-connected failure"),
    }
    // evicted: the next lookup fails immediately, no network involved
    assert_eq!(reg.get(&sn), None);
    let step = begin_exchange(&mut reg, &sn, &RequestKind::GetOneSensorData, 0);
    assert!(matches!(step, BeginStep::Fail(ErrorKind::DeviceNotConnected)));
}

#[test]
fn same_sn_exchanges_are_serialized() {
    let mut reg = ConnectionRegistry::new();
    reg.register(b"S100".to_vec(), 7);
    let sn = b"S100".to_vec();
    let first = begin_exchange(&mut reg, &sn, &RequestKind::GetOneSensorData, 0);
    assert!(matches!(first, BeginStep::Send { .. }));
    // while the first exchange is in flight the link is busy: a second
    // caller may not interleave bytes on the same socket
    let second = begin_exchange(&mut reg, &sn, &RequestKind::GetOneSensorData, 0);
    assert!(matches!(second, BeginStep::Busy));
    // once the first finishes, the link is free again
    let reply = ExchangeOutcome::Reply(b"DATA S100 RoomA 215 550 1690000000\n".to_vec());
    finish_exchange(&mut reg, &sn, &RequestKind::GetOneSensorData, reply);
    let third = begin_exchange(&mut reg, &sn, &RequestKind::GetOneSensorData, 0);
    assert!(matches!(third, BeginStep::Send { .. }));
}

#[test]
fn distinct_sns_proceed_independently() {
    let mut reg = ConnectionRegistry::new();
    reg.register(b"S100".to_vec(), 1);
    reg.register(b"S200".to_vec(), 2);
    let a = b"S100".to_vec();
    let b = b"S200".to_vec();
    // both exchanges can be in flight at once; claiming one link does
    // not disturb the other
    let step_a = begin_exchange(&mut reg, &a, &RequestKind::GetOneSensorData, 0);
    let step_b = begin_exchange(&mut reg, &b, &RequestKind::GetOneSensorData, 0);
    assert!(matches!(step_a, BeginStep::Send { conn: 1, .. }));
    assert!(matches!(step_b, BeginStep::Send { conn: 2, .. }));
    // the slower device does not block the faster one: S200 finishes
    // first although S100 began first
    let reply_b = ExchangeOutcome::Reply(b"DATA S200 RoomB 200 400 1690000002\n".to_vec());
    let result_b = finish_exchange(&mut reg, &b, &RequestKind::GetOneSensorData, reply_b);
    assert!(matches!(result_b, CommandResult::Reading(_)));
    let reply_a = ExchangeOutcome::Reply(b"DATA S100 RoomA 215 550 1690000000\n".to_vec());
    let result_a = finish_exchange(&mut reg, &a, &RequestKind::GetOneSensorData, reply_a);
    assert!(matches!(result_a, CommandResult::Reading(_)));
}

#[test]
fn offsets_and_calibration_exchanges() {
    let mut reg = ConnectionRegistry::new();
    reg.register(b"S100".to_vec(), 7);
    let sn = b"S100".to_vec();
    let step = begin_exchange(&mut reg, &sn, &RequestKind::GetOffset, 0);
    let frame = match step {
        BeginStep::Send { frame, .. } => frame,
        _ => panic!("expected a frame to send"),
    };
    assert_eq!(frame, b"OFFSET\n".to_vec());
    let result = finish_exchange(&mut reg, &sn, &RequestKind::GetOffset,
        ExchangeOutcome::Reply(b"OFF -3 4\n".to_vec()));
    match result {
        CommandResult::Offsets { sn: rsn, temp_offset, hum_offset } => {
            assert_eq!(rsn, b"S100".to_vec());
            assert_eq!(temp_offset, -3);
            assert_eq!(hum_offset, 4);
        }
        _ => panic!("expected offsets"),
    }
    // the cached offsets are served for a RightNow:false offsets read
    let cached = cached_result(&reg, &sn, &RequestKind::GetOffset);
    match cached {
        CommandResult::Offsets { temp_offset, hum_offset, .. } => {
            assert_eq!(temp_offset, -3);
            assert_eq!(hum_offset, 4);
        }
        _ => panic!("expected cached offsets"),
    }
    // calibration: the device acknowledges
    let kind = match sensor_gateway::request::kind_of_id(5) {
        Some(k) => k,
        None => panic!("calibration id is supported"),
    };
    let step = begin_exchange(&mut reg, &sn, &kind, -5);
    let frame = match step {
        BeginStep::Send { frame, .. } => frame,
        _ => panic!("expected a frame to send"),
    };
    assert_eq!(frame, b"CALT -5\n".to_vec());
    let result = finish_exchange(&mut reg, &sn, &kind, ExchangeOutcome::Reply(b"ACK\n".to_vec()));
    assert!(matches!(result, CommandResult::Calibrated { .. }));
}

#[test]
fn malformed_reply_is_a_protocol_error() {
    let mut reg = ConnectionRegistry::new();
    reg.register(b"S100".to_vec(), 7);
    let sn = b"S100".to_vec();
    begin_exchange(&mut reg, &sn, &RequestKind::GetOneSensorData, 0);
    let result = finish_exchange(&mut reg, &sn, &RequestKind::GetOneSensorData,
        ExchangeOutcome::Reply(b"DATA S100 RoomA 21.5 550 1690000000\n".to_vec()));
    match result {
        CommandResult::Failure(e) => {
            assert_eq!(e, ErrorKind::ProtocolError);
            assert_eq!(e.code(), 4);
        }
        _ => panic!("expected a protocol error"),
    }
    // the link stays registered and usable
    assert_eq!(reg.get(&sn), Some(7));
}

#[test]
fn reply_for_another_sn_is_a_protocol_error() {
    let mut reg = ConnectionRegistry::new();
    reg.register(b"S100".to_vec(), 7);
    let sn = b"S100".to_vec();
    begin_exchange(&mut reg, &sn, &RequestKind::GetOneSensorData, 0);
    let result = finish_exchange(&mut reg, &sn, &RequestKind::GetOneSensorData,
        ExchangeOutcome::Reply(b"DATA S999 RoomA 215 550 1690000000\n".to_vec()));
    assert!(matches!(result, CommandResult::Failure(ErrorKind::ProtocolError)));
}

#[test]
fn handshake_registers_a_well_formed_sn() {
    let mut reg = ConnectionRegistry::new();
    let r = process_handshake(&mut reg, 7, HandshakeEvent::Frame(b"S100\n".to_vec()));
    match r {
        HandshakeResult::Registered { sn, evicted } => {
            assert_eq!(sn, b"S100".to_vec());
            assert_eq!(evicted, None);
        }
        _ => panic!("expected a registration"),
    }
    assert_eq!(reg.get(&b"S100".to_vec()), Some(7));
}

#[test]
fn handshake_rejects_timeouts_and_malformed_frames() {
    let mut reg = ConnectionRegistry::new();
    assert!(matches!(
        process_handshake(&mut reg, 7, HandshakeEvent::TimedOut),
        HandshakeResult::Rejected
    ));
    assert!(matches!(
        process_handshake(&mut reg, 7, HandshakeEvent::Frame(b"S 100\n".to_vec())),
        HandshakeResult::Rejected
    ));
    assert!(matches!(
        process_handshake(&mut reg, 7, HandshakeEvent::Frame(b"S100".to_vec())),
        HandshakeResult::Rejected
    ));
    assert_eq!(reg.get(&b"S100".to_vec()), None);
}

#[test]
fn rehandshake_evicts_the_previous_connection() {
    let mut reg = ConnectionRegistry::new();
    process_handshake(&mut reg, 1, HandshakeEvent::Frame(b"S100\n".to_vec()));
    let r = process_handshake(&mut reg, 2, HandshakeEvent::Frame(b"S100\n".to_vec()));
    match r {
        HandshakeResult::Registered { evicted, .. } => assert_eq!(evicted, Some(1)),
        _ => panic!("expected a registration"),
    }
    assert_eq!(reg.get(&b"S100".to_vec()), Some(2));
}
