//! Command dispatch: turning a decoded command into an exchange with a
//! device link and a typed result.
//!
//! The dispatcher never performs I/O itself. For each target it claims
//! the link in the registry and hands the transport layer the connection
//! handle and the exact request frame to send; the transport layer
//! performs the send and the bounded-timeout receive and reports back
//! one `ExchangeOutcome`, which the dispatcher turns into the typed
//! result and the registry update the rules demand: a dead socket evicts
//! the link, a timeout leaves it registered, a good reply refreshes the
//! cached state. Failures are always reported as typed results, never as
//! a fault.

use vstd::prelude::*;

use crate::errors::ErrorKind;
use crate::frames::encode_request;
use crate::frames::is_ack_frame;
use crate::frames::parse_offsets_frame;
use crate::frames::parse_reading_frame;
use crate::frames::request_frame;
use crate::frames::spec_is_ack;
use crate::frames::spec_parse_offsets;
use crate::frames::spec_parse_reading;
use crate::frames::Reading;
use crate::frames::ReadingModel;
use crate::registry::bytes_eq;
use crate::registry::BeginOutcome;
use crate::registry::ConnectionRegistry;
use crate::registry::LinkModel;
use crate::request::needs_offset;
use crate::request::RequestKind;

verus! {

/// What the transport layer observed when it carried out one exchange.
pub enum ExchangeOutcome {
    /// The device answered with this frame within the timeout.
    Reply(Vec<u8>),
    /// No complete frame arrived within the configured timeout.
    Timeout,
    /// The socket is dead: closed by the peer or an OS-level error.
    Disconnected,
}

/// Spec-level value of an exchange outcome.
pub enum OutcomeModel {
    Reply(Seq<u8>),
    Timeout,
    Disconnected,
}

impl View for ExchangeOutcome {
    type V = OutcomeModel;

    open spec fn view(&self) -> OutcomeModel {
        match self {
            ExchangeOutcome::Reply(f) => OutcomeModel::Reply(f@),
            ExchangeOutcome::Timeout => OutcomeModel::Timeout,
            ExchangeOutcome::Disconnected => OutcomeModel::Disconnected,
        }
    }
}

/// The typed result of one dispatched command, per target device.
pub enum CommandResult {
    /// A successful read: the device's reported data.
    Reading(Reading),
    /// A successful offsets read.
    Offsets { sn: Vec<u8>, temp_offset: i32, hum_offset: i32 },
    /// A successful calibration: the device acknowledged the new offset.
    Calibrated { sn: Vec<u8> },
    /// A typed failure; never a crash.
    Failure(ErrorKind),
}

/// Spec-level value of a command result.
pub enum ResultModel {
    Reading(ReadingModel),
    Offsets { sn: Seq<u8>, temp_offset: int, hum_offset: int },
    Calibrated { sn: Seq<u8> },
    Failure(ErrorKind),
}

impl View for CommandResult {
    type V = ResultModel;

    open spec fn view(&self) -> ResultModel {
        match self {
            CommandResult::Reading(r) => ResultModel::Reading(r@),
            CommandResult::Offsets { sn, temp_offset, hum_offset } => ResultModel::Offsets {
                sn: sn@,
                temp_offset: *temp_offset as int,
                hum_offset: *hum_offset as int,
            },
            CommandResult::Calibrated { sn } => ResultModel::Calibrated { sn: sn@ },
            CommandResult::Failure(e) => ResultModel::Failure(*e),
        }
    }
}

/// The result a finished exchange denotes: a function of the request
/// kind, the target SN and the transport outcome alone.
pub open spec fn spec_exchange_result(
    kind: RequestKind,
    sn: Seq<u8>,
    o: OutcomeModel,
) -> ResultModel {
    match o {
        OutcomeModel::Disconnected => ResultModel::Failure(ErrorKind::DeviceNotConnected),
        OutcomeModel::Timeout => ResultModel::Failure(ErrorKind::DeviceTimeout),
        OutcomeModel::Reply(f) => match kind {
            RequestKind::GetAllSensorData | RequestKind::GetOneSensorData => {
                match spec_parse_reading(f) {
                    Some(rm) => if rm.sn == sn {
                        ResultModel::Reading(rm)
                    } else {
                        ResultModel::Failure(ErrorKind::ProtocolError)
                    },
                    None => ResultModel::Failure(ErrorKind::ProtocolError),
                }
            },
            RequestKind::GetOffset => match spec_parse_offsets(f) {
                Some(p) => ResultModel::Offsets {
                    sn: sn,
                    temp_offset: p.0 as int,
                    hum_offset: p.1 as int,
                },
                None => ResultModel::Failure(ErrorKind::ProtocolError),
            },
            RequestKind::SetCalibrationOffset(_) => if spec_is_ack(f) {
                ResultModel::Calibrated { sn: sn }
            } else {
                ResultModel::Failure(ErrorKind::ProtocolError)
            },
        },
    }
}

/// What the dispatcher asks the transport layer to do for one target.
pub enum BeginStep {
    /// The target is not registered: fail without any device I/O.
    Fail(ErrorKind),
    /// Another exchange is in flight on this link; try again later.
    Busy,
    /// Send this frame on this connection and await one reply frame.
    Send { conn: u64, frame: Vec<u8> },
}

/// Starts one exchange with the device `sn`: claims the link and
/// produces the frame to send. An unregistered SN fails with
/// `DeviceNotConnected` immediately, no frame is produced and the
/// registry is untouched, so no device I/O is ever attempted for it. A
/// busy link is reported as such so callers are serialized. No other
/// SN's state is touched in any case.
pub fn begin_exchange(
    reg: &mut ConnectionRegistry,
    sn: &Vec<u8>,
    kind: &RequestKind,
    offset: i32,
) -> (step: BeginStep)
    requires
        old(reg).wf(),
    ensures
        final(reg).wf(),
        match step {
            BeginStep::Fail(e) => e == ErrorKind::DeviceNotConnected && old(reg).lookup(sn@)
                is None && *final(reg) == *old(reg),
            BeginStep::Busy => (old(reg).lookup(sn@) matches Some(m) && m.in_flight)
                && *final(reg) == *old(reg),
            BeginStep::Send { conn, frame } => {
                &&& old(reg).lookup(sn@) matches Some(m) && !m.in_flight && conn == m.conn
                    && final(reg).lookup(sn@) == Some(LinkModel { in_flight: true, ..m })
                &&& frame@ == request_frame(*kind, offset as int)
            },
        },
        forall|t: Seq<u8>| t != sn@ ==> #[trigger] final(reg).lookup(t) == old(reg).lookup(t),
{
    match reg.try_begin_exchange(sn) {
        BeginOutcome::NotConnected => BeginStep::Fail(ErrorKind::DeviceNotConnected),
        BeginOutcome::Busy => BeginStep::Busy,
        BeginOutcome::Ready(conn) => {
            let frame = encode_request(kind, offset);
            BeginStep::Send { conn, frame }
        },
    }
}

/// Finishes one exchange with the device `sn`, applying the lifecycle
/// rules to the registry and typing the result:
/// - a dead socket (`Disconnected`) evicts the SN — a later lookup fails
///   immediately without touching the network — and yields
///   `DeviceNotConnected`;
/// - a `Timeout` yields `DeviceTimeout` and leaves the SN registered,
///   merely releasing the link, since a timeout does not prove the link
///   dead;
/// - a reply frame is parsed by the request kind: a well-formed reply
///   refreshes the cached state and succeeds; a malformed one (or one
///   carrying a different SN) yields `ProtocolError` and releases the
///   link.
/// No other SN's state is touched in any case.
pub fn finish_exchange(
    reg: &mut ConnectionRegistry,
    sn: &Vec<u8>,
    kind: &RequestKind,
    outcome: ExchangeOutcome,
) -> (r: CommandResult)
    requires
        old(reg).wf(),
    ensures
        final(reg).wf(),
        r@ == spec_exchange_result(*kind, sn@, outcome@),
        forall|t: Seq<u8>| t != sn@ ==> #[trigger] final(reg).lookup(t) == old(reg).lookup(t),
        outcome@ is Disconnected ==> final(reg).lookup(sn@) is None,
        outcome@ is Timeout ==> match old(reg).lookup(sn@) {
            Some(m) => final(reg).lookup(sn@) == Some(LinkModel { in_flight: false, ..m }),
            None => *final(reg) == *old(reg),
        },
        outcome@ matches OutcomeModel::Reply(_) ==> match old(reg).lookup(sn@) {
            Some(m) => match spec_exchange_result(*kind, sn@, outcome@) {
                ResultModel::Reading(rm) => final(reg).lookup(sn@) == Some(
                    LinkModel {
                        name: rm.name,
                        temp_tenths: rm.temp_tenths,
                        hum_tenths: rm.hum_tenths,
                        timestamp: rm.timestamp,
                        in_flight: false,
                        ..m
                    },
                ),
                ResultModel::Offsets { sn: _, temp_offset, hum_offset } => final(reg).lookup(sn@)
                    == Some(LinkModel { temp_offset, hum_offset, in_flight: false, ..m }),
                _ => final(reg).lookup(sn@) == Some(LinkModel { in_flight: false, ..m }),
            },
            None => *final(reg) == *old(reg),
        },
{
    match outcome {
        ExchangeOutcome::Disconnected => {
            reg.remove(sn);
            CommandResult::Failure(ErrorKind::DeviceNotConnected)
        },
        ExchangeOutcome::Timeout => {
            reg.release_link(sn);
            CommandResult::Failure(ErrorKind::DeviceTimeout)
        },
        ExchangeOutcome::Reply(f) => {
            match kind {
                RequestKind::GetAllSensorData | RequestKind::GetOneSensorData => {
                    match parse_reading_frame(&f) {
                        Some(rd) => {
                            if bytes_eq(&rd.sn, sn) {
                                let name_copy = crate::frames::copy_range(
                                    &rd.name,
                                    0,
                                    rd.name.len(),
                                );
                                assert(name_copy@ =~= rd.name@);
                                reg.store_reading(
                                    sn,
                                    name_copy,
                                    rd.temp_tenths,
                                    rd.hum_tenths,
                                    rd.timestamp,
                                );
                                CommandResult::Reading(rd)
                            } else {
                                reg.release_link(sn);
                                CommandResult::Failure(ErrorKind::ProtocolError)
                            }
                        },
                        None => {
                            reg.release_link(sn);
                            CommandResult::Failure(ErrorKind::ProtocolError)
                        },
                    }
                },
                RequestKind::GetOffset => {
                    match parse_offsets_frame(&f) {
                        Some((t, h)) => {
                            reg.store_offsets(sn, t, h);
                            let sn_copy = crate::frames::copy_range(sn, 0, sn.len());
                            assert(sn_copy@ =~= sn@);
                            CommandResult::Offsets { sn: sn_copy, temp_offset: t, hum_offset: h }
                        },
                        None => {
                            reg.release_link(sn);
                            CommandResult::Failure(ErrorKind::ProtocolError)
                        },
                    }
                },
                RequestKind::SetCalibrationOffset(_) => {
                    if is_ack_frame(&f) {
                        reg.release_link(sn);
                        let sn_copy = crate::frames::copy_range(sn, 0, sn.len());
                        assert(sn_copy@ =~= sn@);
                        CommandResult::Calibrated { sn: sn_copy }
                    } else {
                        reg.release_link(sn);
                        CommandResult::Failure(ErrorKind::ProtocolError)
                    }
                },
            }
        },
    }
}

/// Serves a reading-kind command from the cached link state, without any
/// device exchange: the behaviour of `RightNow: false`. An unregistered
/// SN fails with `DeviceNotConnected`; the registry is never modified.
pub fn cached_result(reg: &ConnectionRegistry, sn: &Vec<u8>, kind: &RequestKind) -> (r:
    CommandResult)
    requires
        !needs_offset(*kind),
    ensures
        match reg.lookup(sn@) {
            None => r@ == ResultModel::Failure(ErrorKind::DeviceNotConnected),
            Some(m) => match kind {
                RequestKind::GetOffset => r@ == (ResultModel::Offsets {
                    sn: sn@,
                    temp_offset: m.temp_offset,
                    hum_offset: m.hum_offset,
                }),
                _ => r@ == ResultModel::Reading(
                    ReadingModel {
                        sn: sn@,
                        name: m.name,
                        temp_tenths: m.temp_tenths,
                        hum_tenths: m.hum_tenths,
                        timestamp: m.timestamp,
                    },
                ),
            },
        },
{
    match reg.lookup_cached(sn) {
        None => CommandResult::Failure(ErrorKind::DeviceNotConnected),
        Some(link) => {
            let sn_copy = crate::frames::copy_range(sn, 0, sn.len());
            assert(sn_copy@ =~= sn@);
            match kind {
                RequestKind::GetOffset => CommandResult::Offsets {
                    sn: sn_copy,
                    temp_offset: link.temp_offset,
                    hum_offset: link.hum_offset,
                },
                _ => CommandResult::Reading(
                    Reading {
                        sn: sn_copy,
                        name: link.name,
                        temp_tenths: link.temp_tenths,
                        hum_tenths: link.hum_tenths,
                        timestamp: link.timestamp,
                    },
                ),
            }
        },
    }
}

} // verus!
