//! Commands accepted by the dispatcher.
//!
//! A command arrives at the gateway as a loosely typed JSON body; the
//! fields that matter are pulled out as plain values and assembled here
//! into a `Command` over the closed set of request kinds. Anything
//! outside that set, or a kind whose required fields are missing, is a
//! typed error, never a silent no-op.

use vstd::prelude::*;

use crate::errors::ErrorKind;

verus! {

/// Which of the two calibration offsets a command addresses.
#[derive(Clone, Copy, Debug, PartialEq, Eq, Structural)]
pub enum OffsetChannel {
    Temperature,
    Humidity,
}

/// The closed set of request kinds the gateway understands.
#[derive(Clone, Copy, Debug, PartialEq, Eq, Structural)]
pub enum RequestKind {
    /// Read the sensor data of every registered device.
    GetAllSensorData,
    /// Read the sensor data of one device.
    GetOneSensorData,
    /// Read the calibration offsets of one device.
    GetOffset,
    /// Set one calibration offset of one device.
    SetCalibrationOffset(OffsetChannel),
}

/// The request kind a wire `RequestId` denotes, if any.
pub open spec fn spec_kind_of_id(id: int) -> Option<RequestKind> {
    if id == 1 {
        Some(RequestKind::GetAllSensorData)
    } else if id == 2 {
        Some(RequestKind::GetOneSensorData)
    } else if id == 3 || id == 4 {
        Some(RequestKind::GetOffset)
    } else if id == 5 {
        Some(RequestKind::SetCalibrationOffset(OffsetChannel::Temperature))
    } else if id == 6 {
        Some(RequestKind::SetCalibrationOffset(OffsetChannel::Humidity))
    } else {
        None
    }
}

/// Maps a wire `RequestId` into the closed set of kinds; `None` exactly
/// for identifiers outside the set. Both offset-reading identifiers
/// denote the one offsets kind: a single reply carries both offsets.
pub fn kind_of_id(id: i64) -> (r: Option<RequestKind>)
    ensures
        r == spec_kind_of_id(id as int),
{
    if id == 1 {
        Some(RequestKind::GetAllSensorData)
    } else if id == 2 {
        Some(RequestKind::GetOneSensorData)
    } else if id == 3 || id == 4 {
        Some(RequestKind::GetOffset)
    } else if id == 5 {
        Some(RequestKind::SetCalibrationOffset(OffsetChannel::Temperature))
    } else if id == 6 {
        Some(RequestKind::SetCalibrationOffset(OffsetChannel::Humidity))
    } else {
        None
    }
}

/// Whether this kind targets a single device and therefore needs an SN.
pub open spec fn needs_sn(k: RequestKind) -> bool {
    !(k is GetAllSensorData)
}

/// Whether this kind needs a numeric offset parameter.
pub open spec fn needs_offset(k: RequestKind) -> bool {
    k is SetCalibrationOffset
}

/// A decoded operator command, immutable once built.
#[derive(Debug, PartialEq, Eq)]
pub struct Command {
    pub kind: RequestKind,
    /// Target device, present exactly when the kind needs one.
    pub sn: Option<Vec<u8>>,
    /// When false, reading kinds are served from cached state without a
    /// live device exchange.
    pub right_now: bool,
    /// Calibration payload, present exactly when the kind needs one.
    pub offset: Option<i32>,
}

/// Structural well-formedness of a command: the fields its kind requires
/// are present, and only those.
pub open spec fn wf_command(c: Command) -> bool {
    &&& (c.sn is Some <==> needs_sn(c.kind))
    &&& (c.offset is Some <==> needs_offset(c.kind))
}

/// Assembles a command from the plain values pulled out of the request
/// body. Returns `UnsupportedRequest` exactly when the identifier is
/// outside the closed kind set, and `InvalidParameters` exactly when a
/// known kind is missing its SN, missing its offset, or given an offset
/// outside `i32`.
pub fn build_command(
    id: i64,
    sn: Option<Vec<u8>>,
    right_now: bool,
    offset: Option<i64>,
) -> (r: Result<Command, ErrorKind>)
    ensures
        spec_kind_of_id(id as int) is None <==> r == Err::<Command, ErrorKind>(
            ErrorKind::UnsupportedRequest,
        ),
        (spec_kind_of_id(id as int) matches Some(k) && ((needs_sn(k) && sn is None) || (
        needs_offset(k) && !(offset matches Some(o) && i32::MIN <= o <= i32::MAX)))) <==> r
            == Err::<Command, ErrorKind>(ErrorKind::InvalidParameters),
        r matches Err(e) ==> (e == ErrorKind::UnsupportedRequest || e
            == ErrorKind::InvalidParameters),
        r matches Ok(c) ==> {
            &&& spec_kind_of_id(id as int) == Some(c.kind)
            &&& wf_command(c)
            &&& c.right_now == right_now
            &&& (needs_sn(c.kind) ==> c.sn == sn)
            &&& (needs_offset(c.kind) ==> offset == Some(c.offset->0 as i64))
        },
{
    match kind_of_id(id) {
        None => Err(ErrorKind::UnsupportedRequest),
        Some(k) => {
            let use_sn: Option<Vec<u8>> = if needs_sn_exec(k) {
                match sn {
                    None => {
                        return Err(ErrorKind::InvalidParameters);
                    },
                    Some(s) => Some(s),
                }
            } else {
                None
            };
            let use_offset: Option<i32> = if needs_offset_exec(k) {
                match offset {
                    None => {
                        return Err(ErrorKind::InvalidParameters);
                    },
                    Some(o) => {
                        if o < i32::MIN as i64 || o > i32::MAX as i64 {
                            return Err(ErrorKind::InvalidParameters);
                        }
                        Some(o as i32)
                    },
                }
            } else {
                None
            };
            Ok(Command { kind: k, sn: use_sn, right_now, offset: use_offset })
        },
    }
}

/// Executable twin of `needs_sn`.
pub fn needs_sn_exec(k: RequestKind) -> (r: bool)
    ensures
        r == needs_sn(k),
{
    !matches!(k, RequestKind::GetAllSensorData)
}

/// Executable twin of `needs_offset`.
pub fn needs_offset_exec(k: RequestKind) -> (r: bool)
    ensures
        r == needs_offset(k),
{
    matches!(k, RequestKind::SetCalibrationOffset(_))
}

} // verus!
