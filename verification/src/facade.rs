//! Decoding the operator's JSON request body into a `Command`.
//!
//! The HTTP layer parses the body into a `serde_json::Value` and hands
//! it in; the field values that matter (`RequestId`, `SN`, `RightNow`,
//! `Offset`) are pulled out of the document through trusted wrappers
//! around `serde_json`, and `build_command` — whose contract is exact —
//! assembles and validates the command. A missing `RightNow` defaults
//! to `false`: reading kinds are then served from cached state.

use vstd::prelude::*;

use crate::errors::ErrorKind;
use crate::request::build_command;
use crate::request::wf_command;
use crate::request::Command;

verus! {

/// `serde_json::Value` carried opaquely through the decoder.
#[verifier::external_type_specification]
#[verifier::external_body]
pub struct ExValue(serde_json::Value);

/// Relies on serde_json::Value::get and Value::as_i64: the named field
/// of a JSON object, when it is an integer.
#[verifier::external_body]
fn json_field_i64(v: &serde_json::Value, name: &str) -> (r: Option<i64>) {
    match v.get(name) {
        Some(f) => f.as_i64(),
        None => None,
    }
}

/// Relies on serde_json::Value::get and Value::as_bool: the named field
/// of a JSON object, when it is a boolean.
#[verifier::external_body]
fn json_field_bool(v: &serde_json::Value, name: &str) -> (r: Option<bool>) {
    match v.get(name) {
        Some(f) => f.as_bool(),
        None => None,
    }
}

/// Relies on serde_json::Value::get and Value::as_str: the named field
/// of a JSON object as its bytes, when it is a string.
#[verifier::external_body]
fn json_field_bytes(v: &serde_json::Value, name: &str) -> (r: Option<Vec<u8>>) {
    match v.get(name) {
        Some(f) => match f.as_str() {
            Some(s) => Some(s.as_bytes().to_vec()),
            None => None,
        },
        None => None,
    }
}

/// Decodes a parsed JSON body into a command: pulls the `RequestId`,
/// `SN`, `RightNow` and `Offset` fields out of the document and lets
/// `build_command` validate them. A body without a usable `RequestId`
/// is an unsupported request; a missing `RightNow` defaults to `false`.
/// Every outcome is a well-formed command or one of the two decode
/// errors.
pub fn decode_command(v: &serde_json::Value) -> (r: Result<Command, ErrorKind>)
    ensures
        r matches Ok(c) ==> wf_command(c),
        r matches Err(e) ==> (e == ErrorKind::UnsupportedRequest || e
            == ErrorKind::InvalidParameters),
{
    let id = match json_field_i64(v, "RequestId") {
        Some(id) => id,
        None => {
            return Err(ErrorKind::UnsupportedRequest);
        },
    };
    let sn = json_field_bytes(v, "SN");
    let right_now = match json_field_bool(v, "RightNow") {
        Some(b) => b,
        None => false,
    };
    let offset = json_field_i64(v, "Offset");
    build_command(id, sn, right_now, offset)
}

} // verus!
