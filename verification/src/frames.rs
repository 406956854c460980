//! Wire framing between the gateway and a device.
//!
//! Every frame is one line: space-separated fields closed by a single
//! newline, so message boundaries are never ambiguous across sends. The
//! device opens with a handshake frame carrying its SN; afterwards the
//! gateway sends one request frame per exchange and the device answers
//! with one reply frame. Field syntax is fixed: tokens are printable
//! ASCII without spaces, numbers are canonical decimal text.

use vstd::prelude::*;

use crate::codec::dec_digits;
use crate::codec::enc_int;
use crate::codec::is_digit;
use crate::codec::lemma_dec_digits_canonical;
use crate::codec::parse_i32;
use crate::codec::parse_i32_range;
use crate::codec::parse_u64;
use crate::codec::parse_u64_range;
use crate::codec::push_i32;
use crate::codec::push_u64;
use crate::request::OffsetChannel;
use crate::request::RequestKind;

verus! {

/// Field separator inside a frame (ASCII space).
pub const SP: u8 = 32;

/// Frame terminator (ASCII line feed).
pub const NL: u8 = 10;

/// Whether `b` may appear in a token field: printable ASCII, no space.
pub open spec fn is_token_byte(b: u8) -> bool {
    33 <= b <= 126
}

/// A token field: nonempty printable ASCII without spaces. SNs and
/// device names are tokens.
pub open spec fn valid_token(s: Seq<u8>) -> bool {
    &&& s.len() > 0
    &&& forall|i: int| 0 <= i < s.len() ==> is_token_byte(#[trigger] s[i])
}

/// Whether no byte of `s` is the field separator.
pub open spec fn no_sp(s: Seq<u8>) -> bool {
    forall|i: int| 0 <= i < s.len() ==> #[trigger] s[i] != SP
}

/// Index of the first separator in `s`, or `s.len()` if there is none.
pub open spec fn find_sp(s: Seq<u8>) -> int
    decreases s.len(),
{
    if s.len() == 0 {
        0
    } else if s[0] == SP {
        0
    } else {
        1 + find_sp(s.skip(1))
    }
}

/// The first field of `s`: everything before the first separator.
pub open spec fn take_fld(s: Seq<u8>) -> Seq<u8> {
    s.take(find_sp(s))
}

/// Whether a separator follows the first field.
pub open spec fn has_more(s: Seq<u8>) -> bool {
    find_sp(s) < s.len()
}

/// What follows the first separator.
pub open spec fn drop_fld(s: Seq<u8>) -> Seq<u8> {
    s.skip(find_sp(s) + 1)
}

/// `find_sp` stays within the string and everything before it is not a
/// separator.
pub proof fn lemma_find_sp_bounds(s: Seq<u8>)
    ensures
        0 <= find_sp(s) <= s.len(),
        forall|i: int| 0 <= i < find_sp(s) ==> #[trigger] s[i] != SP,
        find_sp(s) < s.len() ==> s[find_sp(s)] == SP,
    decreases s.len(),
{
    if s.len() > 0 && s[0] != SP {
        lemma_find_sp_bounds(s.skip(1));
        assert(forall|i: int|
            1 <= i < find_sp(s) ==> #[trigger] s[i] == s.skip(1)[i - 1] && s[i] != SP);
    }
}

/// On a separator-free string the first field is the whole string.
pub proof fn lemma_find_sp_no_sp(s: Seq<u8>)
    requires
        no_sp(s),
    ensures
        find_sp(s) == s.len(),
        take_fld(s) == s,
        !has_more(s),
    decreases s.len(),
{
    if s.len() > 0 {
        assert(s[0] != SP);
        assert(no_sp(s.skip(1))) by {
            assert(forall|i: int|
                0 <= i < s.skip(1).len() ==> #[trigger] s.skip(1)[i] == s[i + 1]);
        }
        lemma_find_sp_no_sp(s.skip(1));
    }
    assert(s.take(s.len() as int) =~= s);
}

/// Joining a separator-free field, a separator and a rest splits back
/// into exactly that field and that rest.
pub proof fn lemma_fld_of_join(t: Seq<u8>, rest: Seq<u8>)
    requires
        no_sp(t),
    ensures
        find_sp(t + seq![SP] + rest) == t.len(),
        take_fld(t + seq![SP] + rest) == t,
        has_more(t + seq![SP] + rest),
        drop_fld(t + seq![SP] + rest) == rest,
    decreases t.len(),
{
    let s = t + seq![SP] + rest;
    if t.len() == 0 {
        assert(s[0] == SP);
    } else {
        assert(s[0] == t[0]);
        assert(s[0] != SP);
        let t1 = t.skip(1);
        assert(no_sp(t1)) by {
            assert(forall|i: int| 0 <= i < t1.len() ==> #[trigger] t1[i] == t[i + 1]);
        }
        lemma_fld_of_join(t1, rest);
        assert(s.skip(1) =~= t1 + seq![SP] + rest);
    }
    assert(s.take(t.len() as int) =~= t);
    assert(s.skip(t.len() + 1 as int) =~= rest);
}

/// Canonical digit strings contain no separator.
pub proof fn lemma_digits_no_sp(s: Seq<u8>)
    requires
        forall|i: int| 0 <= i < s.len() ==> is_digit(#[trigger] s[i]),
    ensures
        no_sp(s),
{
}

/// Signed canonical encodings contain no separator.
pub proof fn lemma_enc_int_no_sp(n: int)
    requires
        i32::MIN <= n <= i32::MAX,
    ensures
        no_sp(enc_int(n)),
{
    if n < 0 {
        lemma_dec_digits_canonical((-n) as nat);
        let s = enc_int(n);
        assert(forall|i: int|
            1 <= i < s.len() ==> is_digit(#[trigger] s[i]) && s[i] != SP) by {
            assert(forall|i: int|
                1 <= i < s.len() ==> #[trigger] s[i] == dec_digits((-n) as nat)[i - 1]);
        }
        assert(s[0] == 45);
    } else {
        lemma_dec_digits_canonical(n as nat);
        lemma_digits_no_sp(enc_int(n));
    }
}

// ---------------------------------------------------------------------
// Handshake
// ---------------------------------------------------------------------

/// Whether `s` is acceptable as a device serial number.
pub open spec fn valid_sn(s: Seq<u8>) -> bool {
    valid_token(s)
}

/// The handshake frame a device opens with: its SN and the terminator.
pub open spec fn handshake_frame(sn: Seq<u8>) -> Seq<u8> {
    sn + seq![NL]
}

/// The SN a handshake frame carries: defined exactly on well-formed
/// handshake frames.
pub open spec fn spec_parse_handshake(f: Seq<u8>) -> Option<Seq<u8>> {
    if f.len() > 0 && f.last() == NL && valid_sn(f.drop_last()) {
        Some(f.drop_last())
    } else {
        None
    }
}

/// A handshake frame parses back to the SN it was built from.
pub proof fn lemma_handshake_round_trip(sn: Seq<u8>)
    requires
        valid_sn(sn),
    ensures
        spec_parse_handshake(handshake_frame(sn)) == Some(sn),
{
    let f = handshake_frame(sn);
    assert(f.last() == NL);
    assert(f.drop_last() =~= sn);
}

/// Builds the handshake frame for `sn`.
pub fn encode_handshake(sn: &Vec<u8>) -> (r: Vec<u8>)
    ensures
        r@ == handshake_frame(sn@),
{
    let mut out = copy_range(sn, 0, sn.len());
    out.push(NL);
    assert(out@ =~= handshake_frame(sn@));
    out
}

/// Parses a handshake frame; returns the SN exactly when the frame is a
/// well-formed handshake.
pub fn parse_handshake(f: &Vec<u8>) -> (r: Option<Vec<u8>>)
    ensures
        r matches Some(sn) ==> spec_parse_handshake(f@) == Some(sn@),
        r is None ==> spec_parse_handshake(f@) is None,
{
    let n = f.len();
    if n == 0 || n == 1 {
        if n == 1 && f[0] == NL {
            assert(f@.drop_last().len() == 0);
        }
        return None;
    }
    if f[n - 1] != NL {
        return None;
    }
    let mut i: usize = 0;
    while i < n - 1
        invariant
            n == f@.len() >= 2,
            0 <= i <= n - 1,
            forall|j: int| 0 <= j < i ==> is_token_byte(#[trigger] f@[j]),
        decreases n - 1 - i,
    {
        let b = f[i];
        if b < 33 || b > 126 {
            assert(f@.drop_last()[i as int] == f@[i as int]);
            assert(!valid_token(f@.drop_last()));
            return None;
        }
        i = i + 1;
    }
    let sn = copy_range(f, 0, n - 1);
    assert(sn@ =~= f@.drop_last());
    assert(forall|j: int| 0 <= j < sn@.len() ==> is_token_byte(#[trigger] sn@[j]));
    Some(sn)
}

// ---------------------------------------------------------------------
// Request frames
// ---------------------------------------------------------------------

/// Tag of a read-sensor-data request.
pub open spec fn tag_read() -> Seq<u8> {
    seq![82u8, 69u8, 65u8, 68u8]
}

/// Tag of a read-offsets request.
pub open spec fn tag_offset() -> Seq<u8> {
    seq![79u8, 70u8, 70u8, 83u8, 69u8, 84u8]
}

/// Tag of a set-temperature-offset request.
pub open spec fn tag_calt() -> Seq<u8> {
    seq![67u8, 65u8, 76u8, 84u8]
}

/// Tag of a set-humidity-offset request.
pub open spec fn tag_calh() -> Seq<u8> {
    seq![67u8, 65u8, 76u8, 72u8]
}

/// The request frame sent to one device for a given kind. Reading kinds
/// ignore `offset`; calibration kinds carry it.
pub open spec fn request_frame(kind: RequestKind, offset: int) -> Seq<u8> {
    match kind {
        RequestKind::GetAllSensorData => tag_read() + seq![NL],
        RequestKind::GetOneSensorData => tag_read() + seq![NL],
        RequestKind::GetOffset => tag_offset() + seq![NL],
        RequestKind::SetCalibrationOffset(ch) => (match ch {
            OffsetChannel::Temperature => tag_calt(),
            OffsetChannel::Humidity => tag_calh(),
        }) + seq![SP] + enc_int(offset) + seq![NL],
    }
}

/// Builds the request frame for `kind`, with `offset` as the calibration
/// payload where the kind carries one.
pub fn encode_request(kind: &RequestKind, offset: i32) -> (r: Vec<u8>)
    ensures
        r@ == request_frame(*kind, offset as int),
{
    let mut out: Vec<u8> = Vec::new();
    match kind {
        RequestKind::GetAllSensorData | RequestKind::GetOneSensorData => {
            out.push(82);
            out.push(69);
            out.push(65);
            out.push(68);
            out.push(NL);
        },
        RequestKind::GetOffset => {
            out.push(79);
            out.push(70);
            out.push(70);
            out.push(83);
            out.push(69);
            out.push(84);
            out.push(NL);
        },
        RequestKind::SetCalibrationOffset(ch) => {
            match ch {
                OffsetChannel::Temperature => {
                    out.push(67);
                    out.push(65);
                    out.push(76);
                    out.push(84);
                },
                OffsetChannel::Humidity => {
                    out.push(67);
                    out.push(65);
                    out.push(76);
                    out.push(72);
                },
            }
            out.push(SP);
            push_i32(&mut out, offset);
            out.push(NL);
        },
    }
    assert(out@ =~= request_frame(*kind, offset as int));
    out
}

// ---------------------------------------------------------------------
// Reply frames
// ---------------------------------------------------------------------

/// Tag of a sensor-data reply.
pub open spec fn tag_data() -> Seq<u8> {
    seq![68u8, 65u8, 84u8, 65u8]
}

/// Tag of an offsets reply.
pub open spec fn tag_off() -> Seq<u8> {
    seq![79u8, 70u8, 70u8]
}

/// Tag of a calibration acknowledgement.
pub open spec fn tag_ack() -> Seq<u8> {
    seq![65u8, 67u8, 75u8]
}

/// One device's reported sensor data, as the gateway stores and returns
/// it. Temperature and humidity are tenths of a unit.
pub struct Reading {
    pub sn: Vec<u8>,
    pub name: Vec<u8>,
    pub temp_tenths: i32,
    pub hum_tenths: i32,
    pub timestamp: u64,
}

/// Spec-level value of a reading.
pub struct ReadingModel {
    pub sn: Seq<u8>,
    pub name: Seq<u8>,
    pub temp_tenths: int,
    pub hum_tenths: int,
    pub timestamp: int,
}

impl View for Reading {
    type V = ReadingModel;

    open spec fn view(&self) -> ReadingModel {
        ReadingModel {
            sn: self.sn@,
            name: self.name@,
            temp_tenths: self.temp_tenths as int,
            hum_tenths: self.hum_tenths as int,
            timestamp: self.timestamp as int,
        }
    }
}

/// Well-formedness of a reading: token identity fields and machine
/// bounds on the numbers.
pub open spec fn wf_reading(r: ReadingModel) -> bool {
    &&& valid_sn(r.sn)
    &&& valid_token(r.name)
    &&& i32::MIN <= r.temp_tenths <= i32::MAX
    &&& i32::MIN <= r.hum_tenths <= i32::MAX
    &&& 0 <= r.timestamp <= u64::MAX
}

/// The reply frame a device sends for a read request.
pub open spec fn reading_frame(r: ReadingModel) -> Seq<u8> {
    tag_data() + seq![SP] + r.sn + seq![SP] + r.name + seq![SP] + enc_int(r.temp_tenths)
        + seq![SP] + enc_int(r.hum_tenths) + seq![SP] + dec_digits(r.timestamp as nat)
        + seq![NL]
}

/// The reply frame a device sends for a read-offsets request.
pub open spec fn offsets_frame(temp_offset: int, hum_offset: int) -> Seq<u8> {
    tag_off() + seq![SP] + enc_int(temp_offset) + seq![SP] + enc_int(hum_offset) + seq![NL]
}

/// The acknowledgement frame a device sends for a calibration request.
pub open spec fn ack_frame() -> Seq<u8> {
    tag_ack() + seq![NL]
}

/// Deterministic parse of a sensor-data reply: the fields of the frame
/// body, read in order; `None` on any malformation.
pub open spec fn spec_parse_reading(f: Seq<u8>) -> Option<ReadingModel> {
    if f.len() == 0 || f.last() != NL {
        None
    } else {
        let s0 = f.drop_last();
        if take_fld(s0) == tag_data() && has_more(s0) {
            let s1 = drop_fld(s0);
            let sn = take_fld(s1);
            if valid_sn(sn) && has_more(s1) {
                let s2 = drop_fld(s1);
                let name = take_fld(s2);
                if valid_token(name) && has_more(s2) {
                    let s3 = drop_fld(s2);
                    match parse_i32(take_fld(s3)) {
                        Some(t) => if has_more(s3) {
                            let s4 = drop_fld(s3);
                            match parse_i32(take_fld(s4)) {
                                Some(h) => if has_more(s4) {
                                    let s5 = drop_fld(s4);
                                    match parse_u64(take_fld(s5)) {
                                        Some(ts) => if !has_more(s5) {
                                            Some(
                                                ReadingModel {
                                                    sn: sn,
                                                    name: name,
                                                    temp_tenths: t as int,
                                                    hum_tenths: h as int,
                                                    timestamp: ts as int,
                                                },
                                            )
                                        } else {
                                            None
                                        },
                                        None => None,
                                    }
                                } else {
                                    None
                                },
                                None => None,
                            }
                        } else {
                            None
                        },
                        None => None,
                    }
                } else {
                    None
                }
            } else {
                None
            }
        } else {
            None
        }
    }
}

/// Deterministic parse of an offsets reply.
pub open spec fn spec_parse_offsets(f: Seq<u8>) -> Option<(i32, i32)> {
    if f.len() == 0 || f.last() != NL {
        None
    } else {
        let s0 = f.drop_last();
        if take_fld(s0) == tag_off() && has_more(s0) {
            let s1 = drop_fld(s0);
            match parse_i32(take_fld(s1)) {
                Some(t) => if has_more(s1) {
                    let s2 = drop_fld(s1);
                    match parse_i32(take_fld(s2)) {
                        Some(h) => if !has_more(s2) {
                            Some((t, h))
                        } else {
                            None
                        },
                        None => None,
                    }
                } else {
                    None
                },
                None => None,
            }
        } else {
            None
        }
    }
}

/// Whether `f` is the calibration acknowledgement frame.
pub open spec fn spec_is_ack(f: Seq<u8>) -> bool {
    f == ack_frame()
}

/// A well-formed reading's frame parses back to exactly that reading.
#[verifier::rlimit(100)]
pub proof fn lemma_reading_round_trip(r: ReadingModel)
    requires
        wf_reading(r),
    ensures
        spec_parse_reading(reading_frame(r)) == Some(r),
{
    let f = reading_frame(r);
    let enc_t = enc_int(r.temp_tenths);
    let enc_h = enc_int(r.hum_tenths);
    let enc_ts = dec_digits(r.timestamp as nat);
    lemma_dec_digits_canonical(r.timestamp as nat);
    lemma_enc_int_no_sp(r.temp_tenths);
    lemma_enc_int_no_sp(r.hum_tenths);
    lemma_digits_no_sp(enc_ts);
    let s0 = tag_data() + seq![SP] + r.sn + seq![SP] + r.name + seq![SP] + enc_t + seq![SP]
        + enc_h + seq![SP] + enc_ts;
    assert(f.last() == NL);
    assert(f.drop_last() =~= s0);
    let r1 = r.sn + seq![SP] + r.name + seq![SP] + enc_t + seq![SP] + enc_h + seq![SP] + enc_ts;
    assert(s0 =~= tag_data() + seq![SP] + r1);
    assert(no_sp(tag_data()));
    lemma_fld_of_join(tag_data(), r1);
    let r2 = r.name + seq![SP] + enc_t + seq![SP] + enc_h + seq![SP] + enc_ts;
    assert(r1 =~= r.sn + seq![SP] + r2);
    lemma_fld_of_join(r.sn, r2);
    let r3 = enc_t + seq![SP] + enc_h + seq![SP] + enc_ts;
    assert(r2 =~= r.name + seq![SP] + r3);
    lemma_fld_of_join(r.name, r3);
    let r4 = enc_h + seq![SP] + enc_ts;
    assert(r3 =~= enc_t + seq![SP] + r4);
    lemma_fld_of_join(enc_t, r4);
    assert(r4 =~= enc_h + seq![SP] + enc_ts);
    lemma_fld_of_join(enc_h, enc_ts);
    lemma_find_sp_no_sp(enc_ts);
    crate::codec::lemma_i32_round_trip(r.temp_tenths as i32);
    crate::codec::lemma_i32_round_trip(r.hum_tenths as i32);
    crate::codec::lemma_u64_round_trip(r.timestamp as u64);
}

/// A well-formed offsets frame parses back to exactly its two offsets.
pub proof fn lemma_offsets_round_trip(t: i32, h: i32)
    ensures
        spec_parse_offsets(offsets_frame(t as int, h as int)) == Some((t, h)),
{
    let f = offsets_frame(t as int, h as int);
    let enc_t = enc_int(t as int);
    let enc_h = enc_int(h as int);
    lemma_enc_int_no_sp(t as int);
    lemma_enc_int_no_sp(h as int);
    let s0 = tag_off() + seq![SP] + enc_t + seq![SP] + enc_h;
    assert(f.last() == NL);
    assert(f.drop_last() =~= s0);
    let r1 = enc_t + seq![SP] + enc_h;
    assert(s0 =~= tag_off() + seq![SP] + r1);
    assert(no_sp(tag_off()));
    lemma_fld_of_join(tag_off(), r1);
    lemma_fld_of_join(enc_t, enc_h);
    lemma_find_sp_no_sp(enc_h);
    crate::codec::lemma_i32_round_trip(t);
    crate::codec::lemma_i32_round_trip(h);
}

/// A string with a separator splits into its first field, the
/// separator, and the rest.
pub proof fn lemma_fld_decompose(s: Seq<u8>)
    requires
        has_more(s),
    ensures
        s == take_fld(s) + seq![SP] + drop_fld(s),
{
    lemma_find_sp_bounds(s);
    assert(s =~= take_fld(s) + seq![SP] + drop_fld(s));
}

/// A string without a separator is its own first field.
pub proof fn lemma_take_fld_all(s: Seq<u8>)
    requires
        !has_more(s),
    ensures
        take_fld(s) == s,
{
    lemma_find_sp_bounds(s);
    assert(s.take(s.len() as int) =~= s);
}

/// Handshake frames are unambiguous: a frame that parses as `sn` is the
/// one frame built from `sn`.
pub proof fn lemma_handshake_frame_unambiguous(f: Seq<u8>, sn: Seq<u8>)
    requires
        spec_parse_handshake(f) == Some(sn),
    ensures
        valid_sn(sn),
        f == handshake_frame(sn),
{
    assert(f =~= f.drop_last() + seq![f.last()]);
}

/// Sensor-data reply frames are unambiguous: a frame that parses as the
/// reading `r` is well formed and is the one frame encoding `r`.
#[verifier::rlimit(100)]
pub proof fn lemma_reading_frame_unambiguous(f: Seq<u8>, r: ReadingModel)
    requires
        spec_parse_reading(f) == Some(r),
    ensures
        wf_reading(r),
        f == reading_frame(r),
{
    let s0 = f.drop_last();
    let s1 = drop_fld(s0);
    let s2 = drop_fld(s1);
    let s3 = drop_fld(s2);
    let s4 = drop_fld(s3);
    let s5 = drop_fld(s4);
    assert(parse_u64(take_fld(s5)) == Some(r.timestamp as u64));
    crate::codec::lemma_parse_u64_inverts(take_fld(s5));
    lemma_take_fld_all(s5);
    assert(s5 == dec_digits(r.timestamp as nat));
    assert(parse_i32(take_fld(s4)) == Some(r.hum_tenths as i32));
    crate::codec::lemma_parse_i32_inverts(take_fld(s4));
    lemma_fld_decompose(s4);
    assert(s4 == enc_int(r.hum_tenths) + seq![SP] + s5);
    assert(parse_i32(take_fld(s3)) == Some(r.temp_tenths as i32));
    crate::codec::lemma_parse_i32_inverts(take_fld(s3));
    lemma_fld_decompose(s3);
    assert(s3 == enc_int(r.temp_tenths) + seq![SP] + s4);
    lemma_fld_decompose(s2);
    assert(s2 == r.name + seq![SP] + s3);
    lemma_fld_decompose(s1);
    assert(s1 == r.sn + seq![SP] + s2);
    lemma_fld_decompose(s0);
    assert(s0 == tag_data() + seq![SP] + s1);
    assert(f =~= s0 + seq![f.last()]);
    assert(f =~= reading_frame(r));
}

/// Offsets reply frames are unambiguous: a frame that parses as the two
/// offsets is the one frame encoding them.
pub proof fn lemma_offsets_frame_unambiguous(f: Seq<u8>, t: i32, h: i32)
    requires
        spec_parse_offsets(f) == Some((t, h)),
    ensures
        f == offsets_frame(t as int, h as int),
{
    let s0 = f.drop_last();
    let s1 = drop_fld(s0);
    let s2 = drop_fld(s1);
    assert(parse_i32(take_fld(s2)) == Some(h));
    crate::codec::lemma_parse_i32_inverts(take_fld(s2));
    lemma_take_fld_all(s2);
    assert(s2 == enc_int(h as int));
    assert(parse_i32(take_fld(s1)) == Some(t));
    crate::codec::lemma_parse_i32_inverts(take_fld(s1));
    lemma_fld_decompose(s1);
    assert(s1 == enc_int(t as int) + seq![SP] + s2);
    lemma_fld_decompose(s0);
    assert(s0 == tag_off() + seq![SP] + s1);
    assert(f =~= s0 + seq![f.last()]);
    assert(f =~= offsets_frame(t as int, h as int));
}

// ---------------------------------------------------------------------
// Executable parsing
// ---------------------------------------------------------------------

/// Copies `v[from..to]` into a fresh vector.
pub fn copy_range(v: &Vec<u8>, from: usize, to: usize) -> (r: Vec<u8>)
    requires
        from <= to <= v@.len(),
    ensures
        r@ == v@.subrange(from as int, to as int),
{
    let mut out: Vec<u8> = Vec::new();
    let mut i: usize = from;
    while i < to
        invariant
            from <= i <= to <= v@.len(),
            out@ == v@.subrange(from as int, i as int),
        decreases to - i,
    {
        out.push(v[i]);
        assert(out@ =~= v@.subrange(from as int, i + 1));
        i = i + 1;
    }
    out
}

/// Finds the end of the field starting at `from` within `v[from..to]`:
/// the index of the first separator, or `to`.
fn field_end(v: &Vec<u8>, from: usize, to: usize) -> (e: usize)
    requires
        from <= to <= v@.len(),
    ensures
        from <= e <= to,
        e - from == find_sp(v@.subrange(from as int, to as int)),
{
    let ghost s = v@.subrange(from as int, to as int);
    let mut i: usize = from;
    while i < to
        invariant
            from <= i <= to <= v@.len(),
            s == v@.subrange(from as int, to as int),
            forall|j: int| 0 <= j < i - from ==> #[trigger] s[j] != SP,
        decreases to - i,
    {
        if v[i] == SP {
            proof {
                lemma_find_sp_from_first(s, i - from);
            }
            return i;
        }
        i = i + 1;
    }
    proof {
        lemma_find_sp_no_sp(s);
    }
    to
}

/// Checks that `v[from..to]` is a valid token field.
pub fn check_token(v: &Vec<u8>, from: usize, to: usize) -> (b: bool)
    requires
        from <= to <= v@.len(),
    ensures
        b == valid_token(v@.subrange(from as int, to as int)),
{
    let ghost s = v@.subrange(from as int, to as int);
    if from == to {
        return false;
    }
    let mut i: usize = from;
    while i < to
        invariant
            from <= i <= to <= v@.len(),
            s == v@.subrange(from as int, to as int),
            forall|j: int| 0 <= j < i - from ==> is_token_byte(#[trigger] s[j]),
        decreases to - i,
    {
        let b = v[i];
        if b < 33 || b > 126 {
            assert(!is_token_byte(s[i - from]));
            return false;
        }
        i = i + 1;
    }
    true
}

/// Parses a sensor-data reply frame. Returns the reading exactly when
/// the frame is well formed; the reading is then well formed too.
#[verifier::rlimit(100)]
pub fn parse_reading_frame(f: &Vec<u8>) -> (r: Option<Reading>)
    ensures
        r matches Some(rd) ==> spec_parse_reading(f@) == Some(rd@) && wf_reading(rd@),
        r is None ==> spec_parse_reading(f@) is None,
{
    let n = f.len();
    if n == 0 {
        return None;
    }
    if f[n - 1] != NL {
        return None;
    }
    let to = n - 1;
    let ghost s0 = f@.drop_last();
    proof {
        assert(s0 =~= f@.subrange(0, to as int));
        lemma_find_sp_bounds(s0);
    }
    let e0 = field_end(f, 0, to);
    let tag_eq = e0 == 4 && f[0] == 68 && f[1] == 65 && f[2] == 84 && f[3] == 65;
    if !tag_eq {
        proof {
            if take_fld(s0) == tag_data() {
                assert(tag_data().len() == 4);
                assert(take_fld(s0).len() == find_sp(s0));
                assert(find_sp(s0) == 4);
                assert(s0.take(4)[0] == f@[0] && s0.take(4)[1] == f@[1] && s0.take(4)[2] == f@[2]
                    && s0.take(4)[3] == f@[3]);
                assert(false);
            }
        }
        return None;
    }
    assert(take_fld(s0) =~= tag_data());
    if e0 >= to {
        assert(!has_more(s0));
        return None;
    }
    let a1 = e0 + 1;
    let ghost s1 = drop_fld(s0);
    proof {
        assert(s1 =~= f@.subrange(a1 as int, to as int));
        lemma_find_sp_bounds(s1);
    }
    let e1 = field_end(f, a1, to);
    assert(f@.subrange(a1 as int, e1 as int) =~= take_fld(s1));
    if !check_token(f, a1, e1) {
        assert(!valid_sn(take_fld(s1)));
        return None;
    }
    if e1 >= to {
        assert(!has_more(s1));
        return None;
    }
    let a2 = e1 + 1;
    let ghost s2 = drop_fld(s1);
    proof {
        assert(s2 =~= f@.subrange(a2 as int, to as int));
        lemma_find_sp_bounds(s2);
    }
    let e2 = field_end(f, a2, to);
    assert(f@.subrange(a2 as int, e2 as int) =~= take_fld(s2));
    if !check_token(f, a2, e2) {
        assert(!valid_token(take_fld(s2)));
        return None;
    }
    if e2 >= to {
        assert(!has_more(s2));
        return None;
    }
    let a3 = e2 + 1;
    let ghost s3 = drop_fld(s2);
    proof {
        assert(s3 =~= f@.subrange(a3 as int, to as int));
        lemma_find_sp_bounds(s3);
    }
    let e3 = field_end(f, a3, to);
    assert(f@.subrange(a3 as int, e3 as int) =~= take_fld(s3));
    let temp = match parse_i32_range(f, a3, e3) {
        Some(t) => t,
        None => {
            return None;
        },
    };
    if e3 >= to {
        assert(!has_more(s3));
        return None;
    }
    let a4 = e3 + 1;
    let ghost s4 = drop_fld(s3);
    proof {
        assert(s4 =~= f@.subrange(a4 as int, to as int));
        lemma_find_sp_bounds(s4);
    }
    let e4 = field_end(f, a4, to);
    assert(f@.subrange(a4 as int, e4 as int) =~= take_fld(s4));
    let hum = match parse_i32_range(f, a4, e4) {
        Some(h) => h,
        None => {
            return None;
        },
    };
    if e4 >= to {
        assert(!has_more(s4));
        return None;
    }
    let a5 = e4 + 1;
    let ghost s5 = drop_fld(s4);
    proof {
        assert(s5 =~= f@.subrange(a5 as int, to as int));
        lemma_find_sp_bounds(s5);
    }
    let e5 = field_end(f, a5, to);
    assert(f@.subrange(a5 as int, e5 as int) =~= take_fld(s5));
    let ts = match parse_u64_range(f, a5, e5) {
        Some(t) => t,
        None => {
            return None;
        },
    };
    if e5 < to {
        assert(has_more(s5));
        return None;
    }
    let sn = copy_range(f, a1, e1);
    let name = copy_range(f, a2, e2);
    let rd = Reading { sn, name, temp_tenths: temp, hum_tenths: hum, timestamp: ts };
    Some(rd)
}

/// Parses an offsets reply frame: the two calibration offsets, exactly
/// when the frame is well formed.
pub fn parse_offsets_frame(f: &Vec<u8>) -> (r: Option<(i32, i32)>)
    ensures
        r == spec_parse_offsets(f@),
{
    let n = f.len();
    if n == 0 {
        return None;
    }
    if f[n - 1] != NL {
        return None;
    }
    let to = n - 1;
    let ghost s0 = f@.drop_last();
    proof {
        assert(s0 =~= f@.subrange(0, to as int));
        lemma_find_sp_bounds(s0);
    }
    let e0 = field_end(f, 0, to);
    let tag_eq = e0 == 3 && f[0] == 79 && f[1] == 70 && f[2] == 70;
    if !tag_eq {
        proof {
            if take_fld(s0) == tag_off() {
                assert(tag_off().len() == 3);
                assert(take_fld(s0).len() == find_sp(s0));
                assert(find_sp(s0) == 3);
                assert(s0.take(3)[0] == f@[0] && s0.take(3)[1] == f@[1] && s0.take(3)[2] == f@[2]);
                assert(false);
            }
        }
        return None;
    }
    assert(take_fld(s0) =~= tag_off());
    if e0 >= to {
        assert(!has_more(s0));
        return None;
    }
    let a1 = e0 + 1;
    let ghost s1 = drop_fld(s0);
    proof {
        assert(s1 =~= f@.subrange(a1 as int, to as int));
        lemma_find_sp_bounds(s1);
    }
    let e1 = field_end(f, a1, to);
    assert(f@.subrange(a1 as int, e1 as int) =~= take_fld(s1));
    let t = match parse_i32_range(f, a1, e1) {
        Some(t) => t,
        None => {
            return None;
        },
    };
    if e1 >= to {
        assert(!has_more(s1));
        return None;
    }
    let a2 = e1 + 1;
    let ghost s2 = drop_fld(s1);
    proof {
        assert(s2 =~= f@.subrange(a2 as int, to as int));
        lemma_find_sp_bounds(s2);
    }
    let e2 = field_end(f, a2, to);
    assert(f@.subrange(a2 as int, e2 as int) =~= take_fld(s2));
    let h = match parse_i32_range(f, a2, e2) {
        Some(h) => h,
        None => {
            return None;
        },
    };
    if e2 < to {
        assert(has_more(s2));
        return None;
    }
    Some((t, h))
}

/// Checks whether `f` is the calibration acknowledgement frame.
pub fn is_ack_frame(f: &Vec<u8>) -> (b: bool)
    ensures
        b == spec_is_ack(f@),
{
    let ok = f.len() == 4 && f[0] == 65 && f[1] == 67 && f[2] == 75 && f[3] == NL;
    proof {
        if ok {
            assert(f@ =~= ack_frame());
        } else {
            if f@ == ack_frame() {
                assert(f@.len() == 4);
                assert(f@[0] == 65 && f@[1] == 67 && f@[2] == 75 && f@[3] == NL);
                assert(false);
            }
        }
    }
    ok
}

/// `find_sp` equals the position of the first separator.
proof fn lemma_find_sp_from_first(s: Seq<u8>, k: int)
    requires
        0 <= k < s.len(),
        forall|j: int| 0 <= j < k ==> #[trigger] s[j] != SP,
        s[k] == SP,
    ensures
        find_sp(s) == k,
    decreases k,
{
    if k > 0 {
        let s1 = s.skip(1);
        assert(forall|j: int| 0 <= j < s1.len() ==> #[trigger] s1[j] == s[j + 1]);
        lemma_find_sp_from_first(s1, k - 1);
    }
}

} // verus!
