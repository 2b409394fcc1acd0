//! The textual form of a [`Timestamp`]: `YYYY-MM-DD HH:MM:SS +HHMM`.
//!
//! The ledger stores every time as exactly 25 bytes in this shape.  The
//! encoding is canonical: decoding accepts a byte string only if it is the
//! encoding of a valid timestamp, so writing a timestamp out and reading it
//! back is the identity in both directions.

use vstd::prelude::*;

use crate::timestamp::days_in_month;
use crate::timestamp::Timestamp;

verus! {

/// The ASCII digit for `v`, which must lie in `0..=9`.
pub open spec fn digit_byte(v: int) -> u8 {
    (48 + v) as u8
}

/// Whether `b` is an ASCII digit.
pub open spec fn is_digit(b: u8) -> bool {
    48 <= b <= 57
}

/// The numeric value of the ASCII digit `b`.
pub open spec fn digit_val(b: u8) -> int {
    b - 48
}

/// The value of the two digits at `s[i]` and `s[i + 1]`.
pub open spec fn dec2(s: Seq<u8>, i: int) -> int {
    digit_val(s[i]) * 10 + digit_val(s[i + 1])
}

/// The value of the four digits starting at `s[i]`.
pub open spec fn dec4(s: Seq<u8>, i: int) -> int {
    digit_val(s[i]) * 1000 + digit_val(s[i + 1]) * 100 + digit_val(s[i + 2]) * 10 + digit_val(
        s[i + 3],
    )
}

/// The 25-byte encoding of `ts`: `YYYY-MM-DD HH:MM:SS +HHMM`, with `-` in
/// place of `+` for a negative offset.
pub open spec fn encode(ts: Timestamp) -> Seq<u8> {
    let y = ts.year as int;
    let mo = ts.month as int;
    let d = ts.day as int;
    let h = ts.hour as int;
    let mi = ts.minute as int;
    let se = ts.second as int;
    let off = ts.offset_minutes as int;
    let mag = if off < 0 {
        -off
    } else {
        off
    };
    let sign: u8 = if off < 0 {
        45
    } else {
        43
    };
    seq![
        digit_byte(y / 1000),
        digit_byte((y / 100) % 10),
        digit_byte((y / 10) % 10),
        digit_byte(y % 10),
        45u8,
        digit_byte(mo / 10),
        digit_byte(mo % 10),
        45u8,
        digit_byte(d / 10),
        digit_byte(d % 10),
        32u8,
        digit_byte(h / 10),
        digit_byte(h % 10),
        58u8,
        digit_byte(mi / 10),
        digit_byte(mi % 10),
        58u8,
        digit_byte(se / 10),
        digit_byte(se % 10),
        32u8,
        sign,
        digit_byte((mag / 60) / 10),
        digit_byte((mag / 60) % 10),
        digit_byte((mag % 60) / 10),
        digit_byte((mag % 60) % 10),
    ]
}

/// The bytes have the right length, separators and digit positions.
pub open spec fn well_formed_bytes(s: Seq<u8>) -> bool {
    &&& s.len() == 25
    &&& is_digit(s[0]) && is_digit(s[1]) && is_digit(s[2]) && is_digit(s[3])
    &&& s[4] == 45u8
    &&& is_digit(s[5]) && is_digit(s[6])
    &&& s[7] == 45u8
    &&& is_digit(s[8]) && is_digit(s[9])
    &&& s[10] == 32u8
    &&& is_digit(s[11]) && is_digit(s[12])
    &&& s[13] == 58u8
    &&& is_digit(s[14]) && is_digit(s[15])
    &&& s[16] == 58u8
    &&& is_digit(s[17]) && is_digit(s[18])
    &&& s[19] == 32u8
    &&& (s[20] == 43u8 || s[20] == 45u8)
    &&& is_digit(s[21]) && is_digit(s[22]) && is_digit(s[23]) && is_digit(s[24])
}

/// The timestamp whose fields the digits of a well-formed `s` spell out.
pub open spec fn fields_of(s: Seq<u8>) -> Timestamp {
    Timestamp {
        year: dec4(s, 0) as u32,
        month: dec2(s, 5) as u32,
        day: dec2(s, 8) as u32,
        hour: dec2(s, 11) as u32,
        minute: dec2(s, 14) as u32,
        second: dec2(s, 17) as u32,
        offset_minutes: (if s[20] == 45u8 {
            -(dec2(s, 21) * 60 + dec2(s, 23))
        } else {
            dec2(s, 21) * 60 + dec2(s, 23)
        }) as i32,
    }
}

/// What decoding accepts: the canonical encodings of valid timestamps.
/// The offset hour is capped at 23, its minute at 59, and `-0000` is
/// rejected, so each accepted byte string decodes to exactly one timestamp
/// and re-encodes to itself.
pub open spec fn decode(s: Seq<u8>) -> Option<Timestamp> {
    if !well_formed_bytes(s) {
        None
    } else {
        let ts = fields_of(s);
        if ts.valid() && dec2(s, 21) <= 23 && dec2(s, 23) <= 59 && !(s[20] == 45u8 && dec2(s, 21)
            == 0 && dec2(s, 23) == 0) {
            Some(ts)
        } else {
            None
        }
    }
}

/// Executable mirror of [`days_in_month`].
pub fn days_in_month_exec(year: u32, month: u32) -> (r: u32)
    ensures
        r == days_in_month(year as int, month as int),
{
    if month == 2 {
        if (year % 4 == 0 && year % 100 != 0) || year % 400 == 0 {
            29
        } else {
            28
        }
    } else if month == 4 || month == 6 || month == 9 || month == 11 {
        30
    } else {
        31
    }
}

impl Timestamp {
    /// Executable mirror of [`Timestamp::valid`].
    pub fn is_valid(&self) -> (r: bool)
        ensures
            r == self.valid(),
    {
        1 <= self.year && self.year <= 9999 && 1 <= self.month && self.month <= 12 && 1 <= self.day
            && self.day <= days_in_month_exec(self.year, self.month) && self.hour <= 23
            && self.minute <= 59 && self.second <= 59 && -1439 <= self.offset_minutes
            && self.offset_minutes <= 1439
    }
}

/// Reads a timestamp from its 25-byte textual form; `None` for anything
/// that is not the canonical encoding of a valid timestamp.
pub fn parse_timestamp(b: &[u8]) -> (r: Option<Timestamp>)
    ensures
        r == decode(b@),
{
    if b.len() != 25 {
        return None;
    }
    let mut i: usize = 0;
    while i < 25
        invariant
            i <= 25,
            b@.len() == 25,
            forall|j: int|
                0 <= j < i && j != 4 && j != 7 && j != 10 && j != 13 && j != 16 && j != 19 && j
                    != 20 ==> is_digit(b@[j]),
        decreases 25 - i,
    {
        if i != 4 && i != 7 && i != 10 && i != 13 && i != 16 && i != 19 && i != 20 {
            if b[i] < 48 || b[i] > 57 {
                return None;
            }
        }
        i = i + 1;
    }
    if b[4] != 45 || b[7] != 45 || b[10] != 32 || b[13] != 58 || b[16] != 58 || b[19] != 32 {
        return None;
    }
    if b[20] != 43 && b[20] != 45 {
        return None;
    }
    let year: u32 = (b[0] - 48) as u32 * 1000 + (b[1] - 48) as u32 * 100 + (b[2] - 48) as u32 * 10
        + (b[3] - 48) as u32;
    let month: u32 = (b[5] - 48) as u32 * 10 + (b[6] - 48) as u32;
    let day: u32 = (b[8] - 48) as u32 * 10 + (b[9] - 48) as u32;
    let hour: u32 = (b[11] - 48) as u32 * 10 + (b[12] - 48) as u32;
    let minute: u32 = (b[14] - 48) as u32 * 10 + (b[15] - 48) as u32;
    let second: u32 = (b[17] - 48) as u32 * 10 + (b[18] - 48) as u32;
    let off_hour: u32 = (b[21] - 48) as u32 * 10 + (b[22] - 48) as u32;
    let off_min: u32 = (b[23] - 48) as u32 * 10 + (b[24] - 48) as u32;
    let mag: i32 = (off_hour * 60 + off_min) as i32;
    let offset_minutes: i32 = if b[20] == 45 {
        -mag
    } else {
        mag
    };
    let ts = Timestamp { year, month, day, hour, minute, second, offset_minutes };
    if ts.is_valid() && off_hour <= 23 && off_min <= 59 && !(b[20] == 45 && mag == 0) {
        Some(ts)
    } else {
        None
    }
}

/// Writes `ts` in its canonical 25-byte textual form.
pub fn format_timestamp(ts: &Timestamp) -> (r: Vec<u8>)
    requires
        ts.valid(),
    ensures
        r@ == encode(*ts),
{
    let mut r: Vec<u8> = Vec::new();
    let y = ts.year;
    let mo = ts.month;
    let d = ts.day;
    let h = ts.hour;
    let mi = ts.minute;
    let se = ts.second;
    let mag: u32 = if ts.offset_minutes < 0 {
        (-ts.offset_minutes) as u32
    } else {
        ts.offset_minutes as u32
    };
    let sign: u8 = if ts.offset_minutes < 0 {
        45
    } else {
        43
    };
    r.push((48 + y / 1000) as u8);
    r.push((48 + (y / 100) % 10) as u8);
    r.push((48 + (y / 10) % 10) as u8);
    r.push((48 + y % 10) as u8);
    r.push(45);
    r.push((48 + mo / 10) as u8);
    r.push((48 + mo % 10) as u8);
    r.push(45);
    r.push((48 + d / 10) as u8);
    r.push((48 + d % 10) as u8);
    r.push(32);
    r.push((48 + h / 10) as u8);
    r.push((48 + h % 10) as u8);
    r.push(58);
    r.push((48 + mi / 10) as u8);
    r.push((48 + mi % 10) as u8);
    r.push(58);
    r.push((48 + se / 10) as u8);
    r.push((48 + se % 10) as u8);
    r.push(32);
    r.push(sign);
    r.push((48 + (mag / 60) / 10) as u8);
    r.push((48 + (mag / 60) % 10) as u8);
    r.push((48 + (mag % 60) / 10) as u8);
    r.push((48 + (mag % 60) % 10) as u8);
    proof {
        assert(r@ =~= encode(*ts));
    }
    r
}

/// Splitting a two-digit value into its digits and reading them back is
/// the identity, and both digits encode as ASCII digits.
proof fn lemma_two_digits(v: int)
    requires
        0 <= v <= 99,
    ensures
        is_digit(digit_byte(v / 10)),
        is_digit(digit_byte(v % 10)),
        digit_val(digit_byte(v / 10)) * 10 + digit_val(digit_byte(v % 10)) == v,
{
    vstd::arithmetic::div_mod::lemma_fundamental_div_mod(v, 10);
}

/// The four-digit counterpart of [`lemma_two_digits`].
proof fn lemma_four_digits(v: int)
    requires
        0 <= v <= 9999,
    ensures
        is_digit(digit_byte(v / 1000)),
        is_digit(digit_byte((v / 100) % 10)),
        is_digit(digit_byte((v / 10) % 10)),
        is_digit(digit_byte(v % 10)),
        digit_val(digit_byte(v / 1000)) * 1000 + digit_val(digit_byte((v / 100) % 10)) * 100
            + digit_val(digit_byte((v / 10) % 10)) * 10 + digit_val(digit_byte(v % 10)) == v,
{
    vstd::arithmetic::div_mod::lemma_fundamental_div_mod(v, 10);
    vstd::arithmetic::div_mod::lemma_fundamental_div_mod(v / 10, 10);
    vstd::arithmetic::div_mod::lemma_fundamental_div_mod(v / 100, 10);
    vstd::arithmetic::div_mod::lemma_div_denominator(v, 10, 10);
    vstd::arithmetic::div_mod::lemma_div_denominator(v, 100, 10);
}

/// Writing a timestamp and reading it back yields the timestamp itself:
/// decoding is a left inverse of encoding on valid timestamps.
#[verifier::rlimit(60)]
pub proof fn lemma_encode_decode(ts: Timestamp)
    requires
        ts.valid(),
    ensures
        decode(encode(ts)) == Some(ts),
{
    let s = encode(ts);
    let y = ts.year as int;
    let mo = ts.month as int;
    let d = ts.day as int;
    let h = ts.hour as int;
    let mi = ts.minute as int;
    let se = ts.second as int;
    let off = ts.offset_minutes as int;
    let mag = if off < 0 {
        -off
    } else {
        off
    };
    lemma_four_digits(y);
    lemma_two_digits(mo);
    lemma_two_digits(d);
    lemma_two_digits(h);
    lemma_two_digits(mi);
    lemma_two_digits(se);
    vstd::arithmetic::div_mod::lemma_fundamental_div_mod(mag, 60);
    lemma_two_digits(mag / 60);
    lemma_two_digits(mag % 60);
    assert(well_formed_bytes(s));
    assert(dec4(s, 0) == y);
    assert(dec2(s, 5) == mo);
    assert(dec2(s, 8) == d);
    assert(dec2(s, 11) == h);
    assert(dec2(s, 14) == mi);
    assert(dec2(s, 17) == se);
    assert(dec2(s, 21) == mag / 60);
    assert(dec2(s, 23) == mag % 60);
    assert(dec2(s, 21) * 60 + dec2(s, 23) == mag);
    assert(fields_of(s) == ts);
}

/// Each accepted byte string is the canonical encoding of the timestamp it
/// decodes to: encoding is a left inverse of decoding.
pub proof fn lemma_decode_canonical(s: Seq<u8>, ts: Timestamp)
    requires
        decode(s) == Some(ts),
    ensures
        ts.valid(),
        encode(ts) == s,
{
    let y = dec4(s, 0);
    let mo = dec2(s, 5);
    let d = dec2(s, 8);
    let h = dec2(s, 11);
    let mi = dec2(s, 14);
    let se = dec2(s, 17);
    let hh = dec2(s, 21);
    let mm = dec2(s, 23);
    let magd = hh * 60 + mm;
    vstd::arithmetic::div_mod::lemma_fundamental_div_mod_converse(
        y,
        1000,
        digit_val(s[0]),
        digit_val(s[1]) * 100 + digit_val(s[2]) * 10 + digit_val(s[3]),
    );
    vstd::arithmetic::div_mod::lemma_fundamental_div_mod_converse(
        y,
        100,
        digit_val(s[0]) * 10 + digit_val(s[1]),
        digit_val(s[2]) * 10 + digit_val(s[3]),
    );
    vstd::arithmetic::div_mod::lemma_fundamental_div_mod_converse(
        y,
        10,
        digit_val(s[0]) * 100 + digit_val(s[1]) * 10 + digit_val(s[2]),
        digit_val(s[3]),
    );
    vstd::arithmetic::div_mod::lemma_fundamental_div_mod_converse(
        y / 100,
        10,
        digit_val(s[0]),
        digit_val(s[1]),
    );
    vstd::arithmetic::div_mod::lemma_fundamental_div_mod_converse(
        y / 10,
        10,
        digit_val(s[0]) * 10 + digit_val(s[1]),
        digit_val(s[2]),
    );
    vstd::arithmetic::div_mod::lemma_fundamental_div_mod_converse(
        magd,
        60,
        hh,
        mm,
    );
    assert(encode(ts) =~= s);
}

} // verus!
