//! Error taxonomy of the gateway core.
//!
//! Every failure a dispatch can run into surfaces as one of these kinds;
//! nothing in the library panics or aborts. The HTTP boundary translates
//! each kind to a stable numeric code, with `0` reserved for success.

use vstd::prelude::*;

verus! {

/// The reasons a dispatched command can fail.
#[derive(Clone, Copy, Debug, PartialEq, Eq, Structural)]
pub enum ErrorKind {
    /// The request identifier is outside the closed set of request kinds.
    UnsupportedRequest,
    /// The target SN has no live link in the registry.
    DeviceNotConnected,
    /// The device sent no response within the configured timeout.
    DeviceTimeout,
    /// The device's response frame is malformed.
    ProtocolError,
    /// The command is missing a field its kind requires.
    InvalidParameters,
}

/// Numeric code reported to the HTTP boundary for a successful dispatch.
pub const CODE_SUCCESS: u32 = 0;

/// The stable numeric code of each error kind; never `CODE_SUCCESS`.
pub open spec fn spec_code_of(e: ErrorKind) -> u32 {
    match e {
        ErrorKind::UnsupportedRequest => 1,
        ErrorKind::DeviceNotConnected => 2,
        ErrorKind::DeviceTimeout => 3,
        ErrorKind::ProtocolError => 4,
        ErrorKind::InvalidParameters => 5,
    }
}

impl ErrorKind {
    /// The stable numeric code carried in the HTTP response for this kind.
    pub fn code(&self) -> (c: u32)
        ensures
            c == spec_code_of(*self),
            c != CODE_SUCCESS,
    {
        match self {
            ErrorKind::UnsupportedRequest => 1,
            ErrorKind::DeviceNotConnected => 2,
            ErrorKind::DeviceTimeout => 3,
            ErrorKind::ProtocolError => 4,
            ErrorKind::InvalidParameters => 5,
        }
    }
}

/// The code reported for a whole command from its per-target codes:
/// success when every target succeeded, otherwise the first failure in
/// aggregation order.
pub open spec fn spec_overall_code(codes: Seq<u32>) -> u32
    decreases codes.len(),
{
    if codes.len() == 0 {
        CODE_SUCCESS
    } else if codes[0] != CODE_SUCCESS {
        codes[0]
    } else {
        spec_overall_code(codes.skip(1))
    }
}

/// Folds the per-target codes of one command into the envelope code:
/// the first non-success code in order, or success if there is none.
pub fn overall_code(codes: &Vec<u32>) -> (r: u32)
    ensures
        r == spec_overall_code(codes@),
{
    let n = codes.len();
    let mut i: usize = 0;
    assert(codes@.skip(0) =~= codes@);
    while i < n
        invariant
            n == codes@.len(),
            i <= n,
            spec_overall_code(codes@.skip(i as int)) == spec_overall_code(codes@),
        decreases n - i,
    {
        if codes[i] != CODE_SUCCESS {
            assert(codes@.skip(i as int)[0] == codes@[i as int]);
            return codes[i];
        }
        proof {
            let s = codes@.skip(i as int);
            assert(s[0] == codes@[i as int]);
            assert(s.skip(1) =~= codes@.skip(i + 1 as int));
        }
        i = i + 1;
    }
    assert(codes@.skip(n as int) =~= Seq::<u32>::empty());
    CODE_SUCCESS
}

} // verus!
