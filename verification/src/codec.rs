//! Decimal text codec for the numeric fields of wire frames.
//!
//! Frames carry integers (tenths of a degree, calibration offsets,
//! timestamps) as canonical decimal text: no leading zeros, an optional
//! leading `-` for negative values. Encoding and parsing are verified
//! against one spec-level definition, and parsing accepts exactly the
//! canonical encodings.

use vstd::prelude::*;

verus! {

/// ASCII code of the digit `d` (for `d < 10`).
pub open spec fn digit_byte(d: nat) -> u8 {
    (48 + d) as u8
}

/// Whether `b` is an ASCII decimal digit.
pub open spec fn is_digit(b: u8) -> bool {
    48 <= b <= 57
}

/// The canonical decimal digits of `n`, most significant first.
pub open spec fn dec_digits(n: nat) -> Seq<u8>
    decreases n,
{
    if n < 10 {
        seq![digit_byte(n)]
    } else {
        dec_digits(n / 10).push(digit_byte(n % 10))
    }
}

/// The canonical encoding of a signed value: `-` before the digits of its
/// magnitude when negative.
pub open spec fn enc_int(n: int) -> Seq<u8> {
    if n < 0 {
        seq![45u8] + dec_digits((-n) as nat)
    } else {
        dec_digits(n as nat)
    }
}

/// The value of a digit string, most significant first.
pub open spec fn dec_val(s: Seq<u8>) -> nat
    decreases s.len(),
{
    if s.len() == 0 {
        0
    } else {
        dec_val(s.drop_last()) * 10 + (if is_digit(s.last()) {
            (s.last() - 48) as nat
        } else {
            0
        })
    }
}

/// Whether `s` is a canonical digit string: nonempty, digits only, and no
/// leading zero unless the string is exactly `0`.
pub open spec fn canonical_digits(s: Seq<u8>) -> bool {
    &&& s.len() > 0
    &&& forall|i: int| 0 <= i < s.len() ==> is_digit(#[trigger] s[i])
    &&& (s.len() > 1 ==> s[0] != 48)
}

/// The unsigned value a canonical digit string denotes, if it fits in `u64`.
pub open spec fn parse_u64(s: Seq<u8>) -> Option<u64> {
    if canonical_digits(s) && dec_val(s) <= u64::MAX {
        Some(dec_val(s) as u64)
    } else {
        None
    }
}

/// The signed value a canonical encoding denotes, if it fits in `i32`.
/// A `-` must be followed by a nonzero canonical magnitude.
pub open spec fn parse_i32(s: Seq<u8>) -> Option<i32> {
    if s.len() > 0 && s[0] == 45 {
        let mag = s.skip(1);
        if canonical_digits(mag) && 0 < dec_val(mag) <= 0x8000_0000 {
            Some((-(dec_val(mag) as int)) as i32)
        } else {
            None
        }
    } else {
        if canonical_digits(s) && dec_val(s) <= i32::MAX {
            Some(dec_val(s) as i32)
        } else {
            None
        }
    }
}

/// The canonical digits of `n` are indeed canonical, and denote `n`.
pub proof fn lemma_dec_digits_canonical(n: nat)
    ensures
        canonical_digits(dec_digits(n)),
        dec_val(dec_digits(n)) == n,
        n == 0 <==> dec_digits(n) == seq![48u8],
    decreases n,
{
    if n < 10 {
        assert(dec_digits(n) == seq![digit_byte(n)]);
        assert(dec_val(seq![digit_byte(n)].drop_last()) == 0);
        assert(seq![digit_byte(n)].last() == digit_byte(n));
    } else {
        lemma_dec_digits_canonical(n / 10);
        let pre = dec_digits(n / 10);
        let whole = pre.push(digit_byte(n % 10));
        assert(whole.drop_last() == pre);
        assert(whole.last() == digit_byte(n % 10));
        assert(whole[0] == pre[0]);
        assert(n / 10 > 0);
        assert(pre[0] != 48) by {
            if pre.len() == 1 {
                assert(pre.drop_last() =~= Seq::<u8>::empty());
                assert(dec_val(Seq::<u8>::empty()) == 0);
                assert(pre.last() == pre[0]);
                assert(is_digit(pre[0]));
                assert(dec_val(pre) == (pre[0] - 48) as nat);
                assert(dec_val(pre) == n / 10);
            }
        }
        assert(forall|i: int| 0 <= i < whole.len() ==> is_digit(#[trigger] whole[i]));
        assert(dec_val(whole) == dec_val(pre) * 10 + (n % 10));
    }
}

/// Appending digits never shrinks the value: each prefix of a digit string
/// denotes at most what the whole string denotes.
pub proof fn lemma_dec_val_prefix_le(s: Seq<u8>, i: int)
    requires
        0 <= i <= s.len(),
        forall|j: int| 0 <= j < s.len() ==> is_digit(#[trigger] s[j]),
    ensures
        dec_val(s.take(i)) <= dec_val(s),
    decreases s.len() - i,
{
    if i < s.len() {
        let t = s.take(i + 1);
        assert(t.drop_last() == s.take(i));
        assert(t.last() == s[i]);
        assert(dec_val(s.take(i)) <= dec_val(s.take(i)) * 10 + (s[i] - 48)) by (nonlinear_arith)
            requires
                is_digit(s[i]),
        ;
        lemma_dec_val_prefix_le(s, i + 1);
        assert(s.take(s.len() as int) == s);
    } else {
        assert(s.take(i) == s);
    }
}

/// Parsing inverts encoding: the canonical digits of any `u64` parse back
/// to it.
pub proof fn lemma_u64_round_trip(n: u64)
    ensures
        parse_u64(dec_digits(n as nat)) == Some(n),
{
    lemma_dec_digits_canonical(n as nat);
}

/// Parsing inverts encoding for signed values: the canonical encoding of
/// any `i32` parses back to it.
pub proof fn lemma_i32_round_trip(n: i32)
    ensures
        parse_i32(enc_int(n as int)) == Some(n),
{
    if n < 0 {
        let mag = (-(n as int)) as nat;
        lemma_dec_digits_canonical(mag);
        let s = enc_int(n as int);
        assert(s == seq![45u8] + dec_digits(mag));
        assert(s.skip(1) == dec_digits(mag));
    } else {
        lemma_dec_digits_canonical(n as nat);
    }
}

/// A digit string with a nonzero leading digit denotes a nonzero value.
pub proof fn lemma_dec_val_pos(s: Seq<u8>)
    requires
        s.len() > 0,
        forall|i: int| 0 <= i < s.len() ==> is_digit(#[trigger] s[i]),
        s[0] != 48,
    ensures
        dec_val(s) >= 1,
    decreases s.len(),
{
    if s.len() == 1 {
        assert(s.drop_last() =~= Seq::<u8>::empty());
        assert(dec_val(Seq::<u8>::empty()) == 0);
        assert(s.last() == s[0]);
    } else {
        let pre = s.drop_last();
        assert(pre[0] == s[0]);
        assert(forall|i: int| 0 <= i < pre.len() ==> is_digit(#[trigger] pre[i]));
        lemma_dec_val_pos(pre);
        assert(dec_val(s) >= dec_val(pre) * 10) by (nonlinear_arith)
            requires
                dec_val(s) == dec_val(pre) * 10 + (if is_digit(s.last()) {
                    (s.last() - 48) as nat
                } else {
                    0
                }),
        ;
    }
}

/// Encoding is the unique canonical form: a canonical digit string is
/// the encoding of the value it denotes.
pub proof fn lemma_canonical_unique(s: Seq<u8>)
    requires
        canonical_digits(s),
    ensures
        s == dec_digits(dec_val(s)),
    decreases s.len(),
{
    let n = dec_val(s);
    if s.len() == 1 {
        assert(s.drop_last() =~= Seq::<u8>::empty());
        assert(dec_val(Seq::<u8>::empty()) == 0);
        assert(s.last() == s[0]);
        assert(n == (s[0] - 48) as nat);
        assert(n < 10);
        assert(dec_digits(n) == seq![digit_byte(n)]);
        assert(s =~= dec_digits(n));
    } else {
        let pre = s.drop_last();
        let d = (s.last() - 48) as nat;
        assert(is_digit(s.last()));
        assert(n == dec_val(pre) * 10 + d);
        assert(pre[0] == s[0]);
        assert(forall|i: int| 0 <= i < pre.len() ==> is_digit(#[trigger] pre[i]));
        assert(canonical_digits(pre));
        lemma_dec_val_pos(pre);
        assert(n >= 10) by (nonlinear_arith)
            requires
                n == dec_val(pre) * 10 + d,
                dec_val(pre) >= 1,
        ;
        assert(n / 10 == dec_val(pre) && n % 10 == d) by (nonlinear_arith)
            requires
                n == dec_val(pre) * 10 + d,
                d < 10,
        ;
        lemma_canonical_unique(pre);
        assert(dec_digits(n) == dec_digits(n / 10).push(digit_byte(n % 10)));
        assert(digit_byte(d) == s.last());
        assert(s =~= pre.push(s.last()));
    }
}

/// A successful unsigned parse names the one string that encodes its
/// value.
pub proof fn lemma_parse_u64_inverts(s: Seq<u8>)
    requires
        parse_u64(s) is Some,
    ensures
        s == dec_digits(parse_u64(s)->0 as nat),
{
    lemma_canonical_unique(s);
}

/// A successful signed parse names the one string that encodes its
/// value.
pub proof fn lemma_parse_i32_inverts(s: Seq<u8>)
    requires
        parse_i32(s) is Some,
    ensures
        s == enc_int(parse_i32(s)->0 as int),
{
    let n = parse_i32(s)->0;
    if s.len() > 0 && s[0] == 45 {
        let mag = s.skip(1);
        lemma_canonical_unique(mag);
        assert(n as int == -(dec_val(mag) as int));
        assert((-(n as int)) as nat == dec_val(mag));
        assert(s =~= seq![45u8] + mag);
    } else {
        lemma_canonical_unique(s);
        assert(n as int >= 0);
    }
}

/// Appends the canonical digits of `n` to `out`.
pub fn push_u64(out: &mut Vec<u8>, n: u64)
    ensures
        final(out)@ == old(out)@ + dec_digits(n as nat),
    decreases n,
{
    if n < 10 {
        out.push(48 + n as u8);
        assert(final(out)@ =~= old(out)@ + dec_digits(n as nat));
    } else {
        push_u64(out, n / 10);
        out.push(48 + (n % 10) as u8);
        assert(final(out)@ =~= old(out)@ + dec_digits(n as nat));
    }
}

/// Appends the canonical encoding of the signed value `n` to `out`.
pub fn push_i32(out: &mut Vec<u8>, n: i32)
    ensures
        final(out)@ == old(out)@ + enc_int(n as int),
{
    if n < 0 {
        out.push(45);
        let mag: u64 = (-(n as i64)) as u64;
        assert(mag == -(n as int));
        push_u64(out, mag);
        assert(final(out)@ =~= old(out)@ + enc_int(n as int));
    } else {
        push_u64(out, n as u64);
    }
}

/// Parses the bytes `v[from..to]` as a canonical unsigned decimal.
/// Returns exactly what the spec-level parse denotes for that range.
pub fn parse_u64_range(v: &Vec<u8>, from: usize, to: usize) -> (r: Option<u64>)
    requires
        from <= to <= v@.len(),
    ensures
        r == parse_u64(v@.subrange(from as int, to as int)),
{
    let ghost s = v@.subrange(from as int, to as int);
    if from == to {
        return None;
    }
    if v[from] == 48 && to - from > 1 {
        // leading zero on a multi-digit string is not canonical
        return None;
    }
    let mut i: usize = from;
    let mut acc: u64 = 0;
    while i < to
        invariant
            from <= i <= to <= v@.len(),
            s == v@.subrange(from as int, to as int),
            forall|j: int| 0 <= j < i - from ==> is_digit(#[trigger] s[j]),
            acc == dec_val(s.take(i - from)),
        decreases to - i,
    {
        let b = v[i];
        if b < 48 || b > 57 {
            assert(!is_digit(s[i - from]));
            assert(!canonical_digits(s));
            return None;
        }
        let d: u64 = (b - 48) as u64;
        if acc > (u64::MAX - d) / 10 {
            // the value exceeds u64::MAX: every extension of this prefix does too
            proof {
                let t = s.take(i - from + 1);
                assert(t.drop_last() == s.take(i - from));
                assert(t.last() == s[i - from]);
                assert(acc * 10 + d > u64::MAX) by (nonlinear_arith)
                    requires
                        acc > (u64::MAX - d) / 10,
                        d <= 9,
                ;
                assert(dec_val(t) == acc * 10 + d);
                if canonical_digits(s) {
                    lemma_dec_val_prefix_le(s, i - from + 1);
                }
            }
            return None;
        }
        proof {
            let t = s.take(i - from + 1);
            assert(t.drop_last() == s.take(i - from));
            assert(t.last() == s[i - from]);
        }
        acc = acc * 10 + d;
        i = i + 1;
    }
    proof {
        assert(s.take(to - from) == s);
        if s.len() > 1 && s[0] == 48 {
            assert(false);
        }
    }
    Some(acc)
}

/// Parses the bytes `v[from..to]` as a canonical signed decimal fitting
/// in `i32`. Returns exactly what the spec-level parse denotes.
pub fn parse_i32_range(v: &Vec<u8>, from: usize, to: usize) -> (r: Option<i32>)
    requires
        from <= to <= v@.len(),
    ensures
        r == parse_i32(v@.subrange(from as int, to as int)),
{
    let ghost s = v@.subrange(from as int, to as int);
    if from < to && v[from] == 45 {
        assert(s[0] == 45);
        let mag = parse_u64_range(v, from + 1, to);
        assert(v@.subrange(from + 1, to as int) == s.skip(1));
        match mag {
            Some(m) => {
                if 0 < m && m <= 0x8000_0000 {
                    Some((-(m as i64)) as i32)
                } else {
                    None
                }
            },
            None => None,
        }
    } else {
        let mag = parse_u64_range(v, from, to);
        match mag {
            Some(m) => {
                if m <= i32::MAX as u64 {
                    Some(m as i32)
                } else {
                    None
                }
            },
            None => None,
        }
    }
}

} // verus!
