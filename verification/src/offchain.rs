//! What the off-chain worker computes: the window in which a match's start
//! is drawn, and the start time read back from the answer of the
//! random-number service.
use vstd::prelude::*;
use crate::types::DispatchError;
use vstd::string::StringSliceAdditionalSpecFns;
use vstd::utf8::{
    valid_utf8, valid_first_scalar, length_of_first_scalar, decode_first_codepoint,
    partial_valid_utf8, partial_valid_utf8_extend, partial_valid_partial_invalid_utf8,
};

verus! {

/// The width of the window in which a match's start is drawn: ten minutes,
/// in milliseconds.
pub const RANDOMNESS_TIMERANGE: u64 = 600000;

/// The chain's time in milliseconds, as a `u64`; a time beyond `u64::MAX`
/// cannot be converted.
pub fn convert_moment_to_u64_in_milliseconds(date: u128) -> (r: Result<u64, DispatchError>)
    ensures
        r == (if date <= u64::MAX {
            Ok::<u64, DispatchError>(date as u64)
        } else {
            Err(DispatchError::Other)
        }),
{
    if date <= u64::MAX as u128 {
        Ok(date as u64)
    } else {
        Err(DispatchError::Other)
    }
}

/// The window in which a match's start is drawn, from the chain's time
/// `now`: from `now` (0 when it cannot be converted) to ten minutes later
/// (0 when that exceeds `u64::MAX`).
pub fn timestamp_bounds(now: u128) -> (r: (u64, u64))
    ensures
        r.0 == (if now <= u64::MAX { now } else { 0 }),
        r.1 == (if r.0 + RANDOMNESS_TIMERANGE <= u64::MAX { r.0 + RANDOMNESS_TIMERANGE } else { 0 }),
{
    let mut min_rand_timestamp: u64 = 0;
    if let Ok(t) = convert_moment_to_u64_in_milliseconds(now) {
        min_rand_timestamp = t;
    }
    let mut max_rand_timestamp: u64 = 0;
    if let Some(t) = min_rand_timestamp.checked_add(RANDOMNESS_TIMERANGE) {
        max_rand_timestamp = t;
    }
    (min_rand_timestamp, max_rand_timestamp)
}

/// Whether `c` is a square bracket.
pub open spec fn is_bracket(c: u8) -> bool {
    c == 91 || c == 93
}

/// Whether `c` is an ASCII decimal digit.
pub open spec fn is_digit(c: u8) -> bool {
    48 <= c <= 57
}

/// The bytes `b` without square brackets.
pub open spec fn strip_brackets(b: Seq<u8>) -> Seq<u8>
    decreases b.len(),
{
    if b.len() == 0 {
        b
    } else if is_bracket(b.last()) {
        strip_brackets(b.drop_last())
    } else {
        strip_brackets(b.drop_last()).push(b.last())
    }
}

/// Whether all bytes of `d` are decimal digits.
pub open spec fn all_digits(d: Seq<u8>) -> bool {
    forall|i: int| 0 <= i < d.len() ==> is_digit(#[trigger] d[i])
}

/// The number that the decimal digits `d` write.
pub open spec fn digits_value(d: Seq<u8>) -> int
    decreases d.len(),
{
    if d.len() == 0 {
        0
    } else {
        digits_value(d.drop_last()) * 10 + (d.last() - 48)
    }
}

/// What `u64::from_str` reads from `t`: an optional `+`, then at least one
/// decimal digit, writing a number that fits in a `u64`.
pub open spec fn parse_u64_spec(t: Seq<u8>) -> Option<u64> {
    let d = if t.len() > 0 && t[0] == 43 { t.skip(1) } else { t };
    if d.len() > 0 && all_digits(d) && digits_value(d) <= u64::MAX {
        Some(digits_value(d) as u64)
    } else {
        None
    }
}

/// The number of a prefix of digits is at most that of all of them.
proof fn lemma_digits_value_prefix(d: Seq<u8>, k: int)
    requires
        all_digits(d),
        0 <= k <= d.len(),
    ensures
        0 <= digits_value(d.take(k)) <= digits_value(d),
    decreases d.len(),
{
    if k == d.len() {
        assert(d.take(k) == d);
        lemma_digits_value_nonneg(d);
    } else {
        assert(d.drop_last().take(k) == d.take(k));
        lemma_digits_value_prefix(d.drop_last(), k);
        lemma_digits_value_nonneg(d.drop_last());
    }
}

/// Digits write a number at least 0.
proof fn lemma_digits_value_nonneg(d: Seq<u8>)
    requires
        all_digits(d),
    ensures
        digits_value(d) >= 0,
    decreases d.len(),
{
    if d.len() > 0 {
        assert(all_digits(d.drop_last()));
        lemma_digits_value_nonneg(d.drop_last());
    }
}

/// The start time in the answer of the random-number service: the answer
/// without square brackets, read as a `u64`; `None` where it is not one.
pub fn parse_timestamp_body(body: &str) -> (r: Option<u64>)
    ensures
        r == parse_u64_spec(strip_brackets(body.spec_bytes())),
{
    parse_timestamp_bytes(body.as_bytes())
}

/// The start time in the bytes `bytes` of an answer of the random-number
/// service: the bytes without square brackets, read as a `u64`; `None`
/// where they are not one.
pub fn parse_timestamp_bytes(bytes: &[u8]) -> (r: Option<u64>)
    ensures
        r == parse_u64_spec(strip_brackets(bytes@)),
{
    let mut t: Vec<u8> = Vec::new();
    let mut i: usize = 0;
    while i < bytes.len()
        invariant
            i <= bytes@.len(),
            t@ == strip_brackets(bytes@.take(i as int)),
        decreases bytes@.len() - i,
    {
        proof {
            assert(bytes@.take(i as int + 1).drop_last() == bytes@.take(i as int));
        }
        let c = bytes[i];
        if !(c == 91 || c == 93) {
            t.push(c);
        }
        i = i + 1;
    }
    proof {
        assert(bytes@.take(bytes@.len() as int) == bytes@);
    }
    let start: usize = if t.len() > 0 && t[0] == 43 { 1 } else { 0 };
    let ghost d = if t@.len() > 0 && t@[0] == 43 { t@.skip(1) } else { t@ };
    proof {
        assert(d == t@.skip(start as int));
    }
    if start >= t.len() {
        return None;
    }
    let mut value: u64 = 0;
    let mut j: usize = start;
    while j < t.len()
        invariant
            start <= j <= t@.len(),
            t@ == strip_brackets(bytes@),
            d == (if t@.len() > 0 && t@[0] == 43 { t@.skip(1) } else { t@ }),
            d == t@.skip(start as int),
            all_digits(d.take(j - start)),
            value == digits_value(d.take(j - start)),
        decreases t@.len() - j,
    {
        let c = t[j];
        proof {
            assert(d.take(j - start + 1).drop_last() == d.take(j - start));
            assert(d[j - start] == c);
        }
        if !(48 <= c && c <= 57) {
            proof {
                assert(!is_digit(d[j - start]));
            }
            return None;
        }
        let next = match value.checked_mul(10) {
            Some(v) => v.checked_add((c - 48) as u64),
            None => None,
        };
        match next {
            Some(v) => {
                value = v;
            },
            None => {
                proof {
                    assert(all_digits(d.take(j - start + 1)));
                    if all_digits(d) {
                        lemma_digits_value_prefix(d, j - start + 1);
                    }
                }
                return None;
            },
        }
        j = j + 1;
    }
    proof {
        assert(d.take(j - start) == d);
    }
    Some(value)
}

/// The length of the UTF-8 encoding of one character with which the bytes
/// of `bytes` from `i` on begin, or `None` when they begin with none.
fn first_scalar_len(bytes: &[u8], i: usize) -> (r: Option<usize>)
    requires
        i < bytes@.len(),
    ensures
        ({
            let rest = bytes@.subrange(i as int, bytes@.len() as int);
            match r {
                Some(n) => valid_first_scalar(rest) && n == length_of_first_scalar(rest),
                None => !valid_first_scalar(rest),
            }
        }),
{
    let ghost rest = bytes@.subrange(i as int, bytes@.len() as int);
    let len = bytes.len();
    let b1 = bytes[i];
    assert(rest[0] == b1);
    if b1 <= 0x7f {
        assert(b1 & 0x7f <= 0x7f) by (bit_vector);
        return Some(1);
    }
    if 0xc0 <= b1 && b1 <= 0xdf {
        if i + 1 >= len {
            return None;
        }
        let b2 = bytes[i + 1];
        assert(rest[1] == b2);
        if !(0x80 <= b2 && b2 <= 0xbf) {
            return None;
        }
        let cp: u32 = (((b1 & 0x1f) as u32) << 6) | ((b2 & 0x3f) as u32);
        assert(cp == decode_first_codepoint(rest));
        if cp < 0x80 || (0xd800 <= cp && cp <= 0xdfff) {
            return None;
        }
        return Some(2);
    }
    if 0xe0 <= b1 && b1 <= 0xef {
        if len - i < 3 {
            return None;
        }
        let b2 = bytes[i + 1];
        let b3 = bytes[i + 2];
        assert(rest[1] == b2 && rest[2] == b3);
        if !(0x80 <= b2 && b2 <= 0xbf && 0x80 <= b3 && b3 <= 0xbf) {
            return None;
        }
        let cp: u32 = (((b1 & 0x0f) as u32) << 12) | (((b2 & 0x3f) as u32) << 6) | ((b3
            & 0x3f) as u32);
        assert(cp == decode_first_codepoint(rest));
        if cp < 0x800 || (0xd800 <= cp && cp <= 0xdfff) {
            return None;
        }
        return Some(3);
    }
    if 0xf0 <= b1 && b1 <= 0xf7 {
        if len - i < 4 {
            return None;
        }
        let b2 = bytes[i + 1];
        let b3 = bytes[i + 2];
        let b4 = bytes[i + 3];
        assert(rest[1] == b2 && rest[2] == b3 && rest[3] == b4);
        if !(0x80 <= b2 && b2 <= 0xbf && 0x80 <= b3 && b3 <= 0xbf && 0x80 <= b4 && b4 <= 0xbf) {
            return None;
        }
        let cp: u32 = (((b1 & 0x07) as u32) << 18) | (((b2 & 0x3f) as u32) << 12) | (((b3
            & 0x3f) as u32) << 6) | ((b4 & 0x3f) as u32);
        assert(cp == decode_first_codepoint(rest));
        if cp < 0x10000 || cp > 0x10ffff || (0xd800 <= cp && cp <= 0xdfff) {
            return None;
        }
        return Some(4);
    }
    None
}

/// Whether `bytes` are a valid UTF-8 encoding of a text.
pub fn is_utf8(bytes: &[u8]) -> (r: bool)
    ensures
        r == valid_utf8(bytes@),
{
    let mut i: usize = 0;
    proof {
        assert(bytes@.subrange(0, 0) =~= Seq::<u8>::empty());
    }
    while i < bytes.len()
        invariant
            i <= bytes@.len(),
            partial_valid_utf8(bytes@, i as int),
        decreases bytes@.len() - i,
    {
        match first_scalar_len(bytes, i) {
            Some(n) => {
                proof {
                    partial_valid_utf8_extend(bytes@, i as int);
                }
                i = i + n;
            },
            None => {
                proof {
                    let rest = bytes@.subrange(i as int, bytes@.len() as int);
                    assert(!valid_utf8(rest));
                    partial_valid_partial_invalid_utf8(bytes@, i as int);
                }
                return false;
            },
        }
    }
    proof {
        assert(bytes@.subrange(0, bytes@.len() as int) =~= bytes@);
    }
    true
}

/// What the answer of the random-number service holds.
#[derive(Clone, Copy, Debug, PartialEq, Eq)]
pub enum TimestampBody {
    /// The answer is not a UTF-8 text.
    NotUtf8,
    /// The answer is a text but not one number.
    NotANumber,
    /// The answer is this start time.
    Timestamp(u64),
}

/// What the bytes `body` of an answer of the random-number service hold: a
/// text that, without square brackets, is a `u64`.
pub open spec fn timestamp_body_spec(body: Seq<u8>) -> TimestampBody {
    if !valid_utf8(body) {
        TimestampBody::NotUtf8
    } else {
        match parse_u64_spec(strip_brackets(body)) {
            Some(t) => TimestampBody::Timestamp(t),
            None => TimestampBody::NotANumber,
        }
    }
}

/// Reads the start time from the bytes `body` of an answer of the
/// random-number service.
pub fn timestamp_from_body(body: &[u8]) -> (r: TimestampBody)
    ensures
        r == timestamp_body_spec(body@),
{
    if !is_utf8(body) {
        return TimestampBody::NotUtf8;
    }
    match parse_timestamp_bytes(body) {
        Some(t) => TimestampBody::Timestamp(t),
        None => TimestampBody::NotANumber,
    }
}

} // verus!
