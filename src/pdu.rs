//! The SMS PDU codec: decodes an incoming-SMS PDU, given as hex text, into a
//! record of sender, timestamp, content and concatenation descriptor.
use vstd::prelude::*;
use crate::framer::is_ws;
use crate::text::push_char;
use vstd::string::StringSliceAdditionalSpecFns;
use chrono::{Datelike, Timelike};

verus! {

/// Why a PDU could not be decoded.
#[derive(Debug, Clone, Copy, PartialEq, Eq, Structural)]
pub enum PduError {
    /// No bytes at all.
    Empty,
    /// A hex digit without its pair.
    OddLength,
    /// A character that is not a hex digit.
    InvalidHex,
    /// The header ends before the user-data length.
    TruncatedHeader,
    /// The user data is shorter than its length byte requires.
    TruncatedUserData,
}

/// The concatenation descriptor of one part of a long SMS.
#[derive(Debug, Clone, Copy, PartialEq, Eq, Structural)]
pub struct PartialInfo {
    pub reference: u16,
    pub parts_count: u8,
    pub part_number: u8,
}

/// A service-centre timestamp (the PDU's zone byte is not applied: UTC).
#[derive(Debug, Clone, Copy, PartialEq, Eq, Structural)]
pub struct SmsTimestamp {
    pub year: i32,
    pub month: u32,
    pub day: u32,
    pub hour: u32,
    pub minute: u32,
    pub second: u32,
}

pub open spec fn is_leap(y: int) -> bool {
    y % 4 == 0 && (y % 100 != 0 || y % 400 == 0)
}

pub open spec fn days_in_month(y: int, m: int) -> int {
    if m == 2 {
        if is_leap(y) {
            29
        } else {
            28
        }
    } else if m == 4 || m == 6 || m == 9 || m == 11 {
        30
    } else {
        31
    }
}

/// A day of the proleptic Gregorian calendar.
pub open spec fn valid_date(y: int, m: int, d: int) -> bool {
    1 <= m <= 12 && 1 <= d <= days_in_month(y, m)
}

pub open spec fn valid_time(h: int, mi: int, s: int) -> bool {
    0 <= h < 24 && 0 <= mi < 60 && 0 <= s < 60
}

impl SmsTimestamp {
    pub open spec fn wf(&self) -> bool {
        valid_date(self.year as int, self.month as int, self.day as int) && valid_time(
            self.hour as int,
            self.minute as int,
            self.second as int,
        )
    }
}

/// Relies on `chrono::NaiveDate::from_ymd_opt`: `Some` exactly for a day of
/// the proleptic Gregorian calendar (years well inside its range).
#[verifier::external_body]
fn date_exists(year: i32, month: u32, day: u32) -> (r: bool)
    requires
        0 <= year <= 9999,
    ensures
        r == valid_date(year as int, month as int, day as int),
{
    chrono::NaiveDate::from_ymd_opt(year, month, day).is_some()
}

/// Relies on `chrono::NaiveTime::from_hms_opt`: `Some` exactly for hours
/// below 24, minutes and seconds below 60.
#[verifier::external_body]
fn time_exists(hour: u32, minute: u32, second: u32) -> (r: bool)
    ensures
        r == valid_time(hour as int, minute as int, second as int),
{
    chrono::NaiveTime::from_hms_opt(hour, minute, second).is_some()
}

/// Relies on `chrono::Utc::now`: the current UTC time, a valid date and time
/// of day (leap seconds folded into the nanoseconds).
#[verifier::external_body]
fn utc_now() -> (r: SmsTimestamp)
    ensures
        r.wf(),
{
    let n = chrono::Utc::now();
    SmsTimestamp {
        year: n.year(),
        month: n.month(),
        day: n.day(),
        hour: n.hour(),
        minute: n.minute(),
        second: n.second(),
    }
}

/// The value of an ASCII hex digit.
pub open spec fn nibble(c: u8) -> Option<u8> {
    if 48 <= c <= 57 {
        Some((c - 48) as u8)
    } else if 97 <= c <= 102 {
        Some((c - 87) as u8)
    } else if 65 <= c <= 70 {
        Some((c - 55) as u8)
    } else {
        None
    }
}

pub fn hex_nibble(c: u8) -> (r: Option<u8>)
    ensures
        r == nibble(c),
{
    if 48 <= c && c <= 57 {
        Some(c - 48)
    } else if 97 <= c && c <= 102 {
        Some(c - 87)
    } else if 65 <= c && c <= 70 {
        Some(c - 55)
    } else {
        None
    }
}

/// Hex text to bytes; ASCII whitespace may stand between digit pairs.
pub open spec fn hex_parse(b: Seq<u8>) -> Result<Seq<u8>, PduError>
    decreases b.len(),
{
    if b.len() == 0 {
        Ok(seq![])
    } else if is_ws(b[0]) {
        hex_parse(b.drop_first())
    } else if b.len() == 1 {
        Err(PduError::OddLength)
    } else {
        match (nibble(b[0]), nibble(b[1])) {
            (Some(h), Some(l)) => match hex_parse(b.subrange(2, b.len() as int)) {
                Ok(r) => Ok(seq![(h * 16 + l) as u8] + r),
                Err(e) => Err(e),
            },
            _ => Err(PduError::InvalidHex),
        }
    }
}

pub open spec fn prepend(o: Seq<u8>, r: Result<Seq<u8>, PduError>) -> Result<Seq<u8>, PduError> {
    match r {
        Ok(v) => Ok(o + v),
        Err(e) => Err(e),
    }
}

pub open spec fn bytes_result(r: Result<Vec<u8>, PduError>) -> Result<Seq<u8>, PduError> {
    match r {
        Ok(v) => Ok(v@),
        Err(e) => Err(e),
    }
}

pub fn hex_to_bytes(s: &str) -> (r: Result<Vec<u8>, PduError>)
    ensures
        bytes_result(r) == hex_parse(s.spec_bytes()),
{
    let b = s.as_bytes();
    let n = b.len();
    let mut out: Vec<u8> = Vec::new();
    let mut i: usize = 0;
    assert(b@.subrange(0, n as int) == b@);
    assert(out@ + hex_parse(b@).unwrap() == hex_parse(b@).unwrap()) by {
        assert(Seq::<u8>::empty() + hex_parse(b@).unwrap() =~= hex_parse(b@).unwrap());
    }
    while i < n
        invariant
            n == b@.len(),
            i <= n,
            b@ == s.spec_bytes(),
            hex_parse(b@) == prepend(out@, hex_parse(b@.subrange(i as int, n as int))),
        decreases n - i,
    {
        let ghost rest = b@.subrange(i as int, n as int);
        if b[i] == 32 || b[i] == 9 || b[i] == 10 || b[i] == 12 || b[i] == 13 {
            assert(rest.drop_first() == b@.subrange(i + 1, n as int));
            i += 1;
        } else {
            if n - i == 1 {
                return Err(PduError::OddLength);
            }
            let hi = hex_nibble(b[i]);
            let lo = hex_nibble(b[i + 1]);
            match (hi, lo) {
                (Some(h), Some(l)) => {
                    let v: u8 = h * 16 + l;
                    proof {
                        assert(rest.subrange(2, rest.len() as int) == b@.subrange(i + 2, n as int));
                        match hex_parse(b@.subrange(i + 2, n as int)) {
                            Ok(t) => {
                                assert(out@ + (seq![v] + t) == out@.push(v) + t);
                            },
                            Err(_) => {},
                        }
                    }
                    out.push(v);
                    i += 2;
                },
                _ => {
                    return Err(PduError::InvalidHex);
                },
            }
        }
    }
    proof {
        assert(b@.subrange(n as int, n as int) == Seq::<u8>::empty());
        assert(out@ + Seq::<u8>::empty() == out@);
    }
    Ok(out)
}

/// The decimal value of a swapped-nibble BCD byte: low nibble tens, high
/// nibble units.
pub open spec fn bcd(b: u8) -> int {
    (b % 16) * 10 + b / 16
}

pub fn bcd_swap(byte: u8) -> (r: u8)
    ensures
        r == bcd(byte),
{
    assert(byte & 0x0F == byte % 16) by (bit_vector);
    assert(byte >> 4 == byte / 16) by (bit_vector);
    ((byte & 0x0F) * 10) + (byte >> 4)
}

/// The fields a 7-byte timestamp spells out.
pub open spec fn timestamp_fields(b: Seq<u8>) -> SmsTimestamp {
    SmsTimestamp {
        year: (2000 + bcd(b[0])) as i32,
        month: bcd(b[1]) as u32,
        day: bcd(b[2]) as u32,
        hour: bcd(b[3]) as u32,
        minute: bcd(b[4]) as u32,
        second: bcd(b[5]) as u32,
    }
}

/// The date a timestamp field gives: the one it spells out when that is a
/// real date and time, else the clock value `now`.
pub open spec fn stamp_or(b: Seq<u8>, now: SmsTimestamp) -> SmsTimestamp {
    if b.len() >= 7 && timestamp_fields(b).wf() {
        timestamp_fields(b)
    } else {
        now
    }
}

/// Decodes the PDU timestamp, falling back to the clock value `now` when it
/// is short or names no real date and time.
pub fn decode_timestamp_at(timestamp_bytes: &[u8], now: SmsTimestamp) -> (r: SmsTimestamp)
    ensures
        r == stamp_or(timestamp_bytes@, now),
{
    if timestamp_bytes.len() < 7 {
        return now;
    }
    let yy = bcd_swap(timestamp_bytes[0]);
    let t = SmsTimestamp {
        year: 2000 + yy as i32,
        month: bcd_swap(timestamp_bytes[1]) as u32,
        day: bcd_swap(timestamp_bytes[2]) as u32,
        hour: bcd_swap(timestamp_bytes[3]) as u32,
        minute: bcd_swap(timestamp_bytes[4]) as u32,
        second: bcd_swap(timestamp_bytes[5]) as u32,
    };
    if date_exists(t.year, t.month, t.day) && time_exists(t.hour, t.minute, t.second) {
        t
    } else {
        now
    }
}

/// Decodes the PDU timestamp; one that is short or names no real date and
/// time falls back to the current UTC time.
pub fn decode_timestamp(timestamp_bytes: &[u8]) -> (r: SmsTimestamp)
    ensures
        r.wf(),
        timestamp_bytes@.len() >= 7 && timestamp_fields(timestamp_bytes@).wf() ==> r
            == timestamp_fields(timestamp_bytes@),
{
    decode_timestamp_at(timestamp_bytes, utc_now())
}

/// The digit character for a value below 10.
pub open spec fn digit(d: int) -> char {
    ((48 + d) as u8) as char
}

/// Semi-octet number decoding, folded over the bytes with the digits so far:
/// the low nibble, then the high nibble while fewer than `length` digits
/// stand; nibbles above 9 (the 0xF filler) are skipped.
pub open spec fn number_from(acc: Seq<char>, b: Seq<u8>, length: int) -> Seq<char>
    decreases b.len(),
{
    if b.len() == 0 {
        acc
    } else {
        let d1 = b[0] % 16;
        let d2 = b[0] / 16;
        let a1 = if d1 <= 9 {
            acc.push(digit(d1 as int))
        } else {
            acc
        };
        let a2 = if a1.len() < length && d2 <= 9 {
            a1.push(digit(d2 as int))
        } else {
            a1
        };
        number_from(a2, b.drop_first(), length)
    }
}

fn digit_char(d: u8) -> (c: char)
    requires
        d <= 9,
    ensures
        c == digit(d as int),
{
    (48 + d) as char
}

pub fn decode_number(number_bytes: &[u8], number_length: usize) -> (r: String)
    ensures
        r@ == number_from(seq![], number_bytes@, number_length as int),
{
    let mut number = String::new();
    let mut count: usize = 0;
    let mut i: usize = 0;
    assert(number_bytes@.subrange(0, number_bytes@.len() as int) == number_bytes@);
    while i < number_bytes.len()
        invariant
            i <= number_bytes@.len(),
            count as int == if number@.len() < number_length { number@.len() as int } else { number_length as int },
            number_from(seq![], number_bytes@, number_length as int) == number_from(
                number@,
                number_bytes@.subrange(i as int, number_bytes@.len() as int),
                number_length as int,
            ),
        decreases number_bytes@.len() - i,
    {
        let byte = number_bytes[i];
        let d1 = byte & 0x0F;
        let d2 = byte >> 4;
        assert(byte & 0x0F == byte % 16) by (bit_vector);
        assert(byte >> 4 == byte / 16) by (bit_vector);
        assert(number_bytes@.subrange(i as int, number_bytes@.len() as int).drop_first()
            == number_bytes@.subrange(i + 1, number_bytes@.len() as int));
        if d1 <= 9 {
            push_char(&mut number, digit_char(d1));
            if count < number_length {
                count += 1;
            }
        }
        if count < number_length && d2 <= 9 {
            push_char(&mut number, digit_char(d2));
            count += 1;
        }
        i += 1;
    }
    assert(number_bytes@.subrange(number_bytes@.len() as int, number_bytes@.len() as int)
        == Seq::<u8>::empty());
    number
}

/// The GSM 03.38 default alphabet, indexed by septet value. The escape to
/// the extension table (0x1B) has no character of its own and reads `?`.
pub open spec fn gsm_table() -> Seq<char> {
    seq![
        '\u{40}', '\u{a3}', '\u{24}', '\u{a5}', '\u{e8}', '\u{e9}', '\u{f9}', '\u{ec}',
        '\u{f2}', '\u{c7}', '\u{a}', '\u{d8}', '\u{f8}', '\u{d}', '\u{c5}', '\u{e5}',
        '\u{394}', '\u{5f}', '\u{3a6}', '\u{393}', '\u{39b}', '\u{3a9}', '\u{3a0}', '\u{3a8}',
        '\u{3a3}', '\u{398}', '\u{39e}', '?', '\u{c6}', '\u{e6}', '\u{df}', '\u{c9}',
        ' ', '!', '"', '#', '\u{a4}', '%', '&', '\'',
        '(', ')', '*', '+', ',', '-', '.', '/',
        '0', '1', '2', '3', '4', '5', '6', '7',
        '8', '9', ':', ';', '<', '=', '>', '?',
        '\u{a1}', 'A', 'B', 'C', 'D', 'E', 'F', 'G',
        'H', 'I', 'J', 'K', 'L', 'M', 'N', 'O',
        'P', 'Q', 'R', 'S', 'T', 'U', 'V', 'W',
        'X', 'Y', 'Z', '\u{c4}', '\u{d6}', '\u{d1}', '\u{dc}', '\u{a7}',
        '\u{bf}', 'a', 'b', 'c', 'd', 'e', 'f', 'g',
        'h', 'i', 'j', 'k', 'l', 'm', 'n', 'o',
        'p', 'q', 'r', 's', 't', 'u', 'v', 'w',
        'x', 'y', 'z', '\u{e4}', '\u{f6}', '\u{f1}', '\u{fc}', '\u{e0}',
    ]
}

pub fn gsm_alphabet() -> (r: Vec<char>)
    ensures
        r@ == gsm_table(),
{
    let r = vec![
        '\u{40}', '\u{a3}', '\u{24}', '\u{a5}', '\u{e8}', '\u{e9}', '\u{f9}', '\u{ec}',
        '\u{f2}', '\u{c7}', '\u{a}', '\u{d8}', '\u{f8}', '\u{d}', '\u{c5}', '\u{e5}',
        '\u{394}', '\u{5f}', '\u{3a6}', '\u{393}', '\u{39b}', '\u{3a9}', '\u{3a0}', '\u{3a8}',
        '\u{3a3}', '\u{398}', '\u{39e}', '?', '\u{c6}', '\u{e6}', '\u{df}', '\u{c9}',
        ' ', '!', '"', '#', '\u{a4}', '%', '&', '\'',
        '(', ')', '*', '+', ',', '-', '.', '/',
        '0', '1', '2', '3', '4', '5', '6', '7',
        '8', '9', ':', ';', '<', '=', '>', '?',
        '\u{a1}', 'A', 'B', 'C', 'D', 'E', 'F', 'G',
        'H', 'I', 'J', 'K', 'L', 'M', 'N', 'O',
        'P', 'Q', 'R', 'S', 'T', 'U', 'V', 'W',
        'X', 'Y', 'Z', '\u{c4}', '\u{d6}', '\u{d1}', '\u{dc}', '\u{a7}',
        '\u{bf}', 'a', 'b', 'c', 'd', 'e', 'f', 'g',
        'h', 'i', 'j', 'k', 'l', 'm', 'n', 'o',
        'p', 'q', 'r', 's', 't', 'u', 'v', 'w',
        'x', 'y', 'z', '\u{e4}', '\u{f6}', '\u{f1}', '\u{fc}', '\u{e0}',
    ];
    assert(r@ == gsm_table());
    r
}

/// Septet `i` of a packed GSM-7 stream: bits `7i .. 7i+7` of the bytes read
/// as one little-endian bit string, with zero bits past the end.
pub open spec fn septet(b: Seq<u8>, i: int) -> u32 {
    let k = (7 * i) / 8;
    let o = ((7 * i) % 8) as u32;
    let lo = (b[k] as u32) >> o;
    let hi = if k + 1 < b.len() {
        (b[k + 1] as u32) << (8 - o) as u32
    } else {
        0
    };
    (lo | hi) & 0x7F
}

/// How many septets `n` packed bytes hold, rounded up.
pub open spec fn septet_count(n: int) -> int {
    n + n / 7 + if n % 7 > 0 {
        1int
    } else {
        0int
    }
}

/// The text of a GSM-7 stream: the first `length` septets (or as many as the
/// bytes hold), each through the default alphabet.
pub open spec fn gsm7_text(b: Seq<u8>, length: int) -> Seq<char> {
    let count = if length < septet_count(b.len() as int) {
        length
    } else {
        septet_count(b.len() as int)
    };
    Seq::new(count as nat, |i: int| gsm_table()[septet(b, i) as int])
}

proof fn lemma_septet_in_range(b: Seq<u8>, i: int)
    requires
        0 <= i,
        i < septet_count(b.len() as int),
    ensures
        0 <= (7 * i) / 8 < b.len(),
{
    assert(0 <= (7 * i) / 8);
    assert((7 * i) / 8 < b.len()) by (nonlinear_arith)
        requires
            0 <= i < b.len() + b.len() / 7 + 1,
            i < b.len() + b.len() / 7 + if b.len() % 7 > 0 { 1int } else { 0int },
    ;
}

pub fn decode_7bit(encoded_bytes: &[u8], length: usize) -> (r: String)
    ensures
        r@ == gsm7_text(encoded_bytes@, length as int),
{
    let table = gsm_alphabet();
    let n = encoded_bytes.len();
    let total: u128 = n as u128 + (n / 7) as u128 + if n % 7 > 0 {
        1
    } else {
        0
    };
    let count: usize = if (length as u128) < total {
        length
    } else {
        total as usize
    };
    let ghost want = gsm7_text(encoded_bytes@, length as int);
    let mut out = String::new();
    let mut i: usize = 0;
    while i < count
        invariant
            n == encoded_bytes@.len(),
            total == septet_count(n as int),
            count as int == want.len(),
            want == gsm7_text(encoded_bytes@, length as int),
            table@ == gsm_table(),
            i <= count,
            out@ == want.subrange(0, i as int),
        decreases count - i,
    {
        proof {
            lemma_septet_in_range(encoded_bytes@, i as int);
        }
        let bit: u128 = 7 * (i as u128);
        let k = (bit / 8) as usize;
        let o = (bit % 8) as u32;
        let lo = (encoded_bytes[k] as u32) >> o;
        let hi = if k + 1 < n {
            (encoded_bytes[k + 1] as u32) << (8 - o)
        } else {
            0
        };
        let v = (lo | hi) & 0x7F;
        assert(v == septet(encoded_bytes@, i as int));
        assert(v < 128) by (bit_vector)
            requires
                v == (lo | hi) & 0x7F,
        ;
        push_char(&mut out, table[v as usize]);
        assert(out@ == want.subrange(0, i + 1));
        i += 1;
    }
    out
}

/// Big-endian 16-bit units of a byte string; a trailing odd byte is ignored.
pub open spec fn units_of(b: Seq<u8>) -> Seq<u16> {
    Seq::new(b.len() / 2, |i: int| (b[2 * i] as int * 256 + b[2 * i + 1] as int) as u16)
}

/// The code points that UTF-16 decoding yields, with `?` (63) for each unit
/// that is an unpaired surrogate.
pub open spec fn utf16_codes(u: Seq<u16>) -> Seq<u32>
    decreases u.len(),
{
    if u.len() == 0 {
        seq![]
    } else if u[0] < 0xD800 || u[0] > 0xDFFF {
        seq![u[0] as u32] + utf16_codes(u.drop_first())
    } else if u[0] <= 0xDBFF && u.len() >= 2 && 0xDC00 <= u[1] <= 0xDFFF {
        seq![(0x10000 + (u[0] - 0xD800) * 0x400 + (u[1] - 0xDC00)) as u32] + utf16_codes(
            u.subrange(2, u.len() as int),
        )
    } else {
        seq![63u32] + utf16_codes(u.drop_first())
    }
}

/// The code points of a text.
pub open spec fn codes(s: Seq<char>) -> Seq<u32> {
    s.map_values(|c: char| c as u32)
}

/// Relies on `char::from_u32`: `Some` exactly for a Unicode scalar value,
/// holding that value.
#[verifier::external_body]
fn char_from_code(u: u32) -> (r: Option<char>)
    ensures
        r is Some <==> (u <= 0x10FFFF && !(0xD800 <= u <= 0xDFFF)),
        r matches Some(c) ==> c as u32 == u,
{
    char::from_u32(u)
}

pub fn decode_ucs2(encoded_bytes: &[u8]) -> (r: String)
    ensures
        codes(r@) == utf16_codes(units_of(encoded_bytes@)),
{
    let mut units: Vec<u16> = Vec::new();
    let mut i: usize = 0;
    while i + 1 < encoded_bytes.len()
        invariant
            i % 2 == 0,
            i <= encoded_bytes@.len(),
            units@.len() == i / 2,
            units@ == units_of(encoded_bytes@).subrange(0, (i / 2) as int),
        decreases encoded_bytes@.len() - i,
    {
        let u: u16 = (encoded_bytes[i] as u16) * 256 + encoded_bytes[i + 1] as u16;
        units.push(u);
        assert(units@ == units_of(encoded_bytes@).subrange(0, (i / 2) + 1));
        i += 2;
    }
    assert(units@ == units_of(encoded_bytes@));
    let ghost all = units@;
    let mut s = String::new();
    let mut j: usize = 0;
    while j < units.len()
        invariant
            all == units@,
            j <= units@.len(),
            codes(s@) + utf16_codes(all.subrange(j as int, all.len() as int)) == utf16_codes(all),
        decreases units@.len() - j,
    {
        let ghost rest = all.subrange(j as int, all.len() as int);
        let ghost before = s@;
        let u = units[j];
        if u < 0xD800 || u > 0xDFFF {
            let c = char_from_code(u as u32);
            match c {
                Some(ch) => push_char(&mut s, ch),
                None => {},
            }
            assert(rest.drop_first() == all.subrange(j + 1, all.len() as int));
            assert(codes(s@) == codes(before).push(u as u32));
            assert(codes(s@) + utf16_codes(all.subrange(j + 1, all.len() as int)) == codes(before) + utf16_codes(rest));
            j += 1;
        } else if u <= 0xDBFF && j + 1 < units.len() && 0xDC00 <= units[j + 1] && units[j + 1] <= 0xDFFF {
            let w = units[j + 1];
            let cp: u32 = 0x10000 + ((u - 0xD800) as u32) * 0x400 + ((w - 0xDC00) as u32);
            let c = char_from_code(cp);
            match c {
                Some(ch) => push_char(&mut s, ch),
                None => {},
            }
            assert(rest.subrange(2, rest.len() as int) == all.subrange(j + 2, all.len() as int));
            assert(codes(s@) == codes(before).push(cp));
            assert(codes(s@) + utf16_codes(all.subrange(j + 2, all.len() as int)) == codes(before) + utf16_codes(rest));
            j += 2;
        } else {
            push_char(&mut s, '?');
            assert(rest.drop_first() == all.subrange(j + 1, all.len() as int));
            assert(codes(s@) == codes(before).push(63u32));
            assert(codes(s@) + utf16_codes(all.subrange(j + 1, all.len() as int)) == codes(before) + utf16_codes(rest));
            j += 1;
        }
    }
    assert(all.subrange(all.len() as int, all.len() as int) == Seq::<u16>::empty());
    assert(codes(s@) + Seq::<u32>::empty() == codes(s@));
    s
}

/// A decoded incoming SMS.
#[derive(Debug, Clone)]
pub struct SmsData {
    pub sender: String,
    pub content: String,
    pub date: SmsTimestamp,
    pub partial_info: Option<PartialInfo>,
}

/// The fields of an SMS-DELIVER PDU, as its layout places them.
pub struct PduLayout {
    pub sender: Seq<char>,
    pub ucs2: bool,
    pub stamp: Seq<u8>,
    pub udl: int,
    pub content: Seq<u8>,
    pub partial: Option<PartialInfo>,
}

/// The user-data header: its length in bytes (0 when absent) and the
/// concatenation descriptor it carries (IEI 0x00: 8-bit reference; IEI
/// 0x08: 16-bit big-endian reference).
pub open spec fn udh_info(pdu_type: u8, data: Seq<u8>) -> (int, Option<PartialInfo>) {
    if (pdu_type / 64) % 2 == 1 && data.len() > 0 {
        let ul = data[0] + 1;
        let p = if data.len() >= ul && data.len() >= 6 {
            if data[1] == 0 {
                Some(PartialInfo { reference: data[3] as u16, parts_count: data[4], part_number: data[5] })
            } else if data[1] == 8 && data.len() >= 7 {
                Some(
                    PartialInfo {
                        reference: (data[3] * 256 + data[4]) as u16,
                        parts_count: data[5],
                        part_number: data[6],
                    },
                )
            } else {
                None
            }
        } else {
            None
        };
        (ul, p)
    } else {
        (0, None)
    }
}

/// DCS bit 0x08 selects UCS-2; otherwise the text is GSM-7.
pub open spec fn is_ucs2(dcs: u8) -> bool {
    (dcs / 8) % 2 == 1
}

/// How many user-data bytes a length byte `udl` asks for: `udl` bytes of
/// UCS-2, or `udl` septets of GSM-7 packed into whole bytes.
pub open spec fn user_data_need(dcs: u8, udl: u8) -> int {
    if is_ucs2(dcs) {
        udl as int
    } else {
        (7 * udl + 7) / 8
    }
}

/// Reads the PDU's layout: SMSC, PDU type, originator address, PID, DCS,
/// timestamp, user-data length, user data.
pub open spec fn pdu_layout(b: Seq<u8>) -> Result<PduLayout, PduError> {
    if b.len() == 0 {
        Err(PduError::Empty)
    } else {
        let type_at = 1 + b[0];
        if type_at >= b.len() || type_at + 3 > b.len() {
            Err(PduError::TruncatedHeader)
        } else {
            let ty = b[type_at];
            let slen = b[type_at + 1];
            let stype = b[type_at + 2];
            let addr_at = type_at + 3;
            let sbl = (slen + 1) / 2;
            if addr_at + sbl + 10 > b.len() {
                Err(PduError::TruncatedHeader)
            } else if b.len() - (addr_at + sbl + 10) < user_data_need(b[addr_at + sbl + 1], b[addr_at + sbl + 9]) {
                Err(PduError::TruncatedUserData)
            } else {
                let digits = number_from(seq![], b.subrange(addr_at, addr_at + sbl), slen as int);
                let stamp_at = addr_at + sbl + 2;
                let data = b.subrange(stamp_at + 8, b.len() as int);
                let (ul, partial) = udh_info(ty, data);
                Ok(
                    PduLayout {
                        sender: if stype == 0x91 {
                            seq!['+'] + digits
                        } else {
                            digits
                        },
                        ucs2: is_ucs2(b[addr_at + sbl + 1]),
                        stamp: b.subrange(stamp_at, stamp_at + 7),
                        udl: b[stamp_at + 7] as int,
                        content: if ul <= data.len() {
                            data.subrange(ul, data.len() as int)
                        } else {
                            seq![]
                        },
                        partial,
                    },
                )
            }
        }
    }
}

/// The code points of the message text.
pub open spec fn layout_codes(l: PduLayout) -> Seq<u32> {
    if l.ucs2 {
        utf16_codes(units_of(l.content))
    } else {
        codes(gsm7_text(l.content, l.udl))
    }
}

/// Hex text to layout, failing as the first step that fails.
pub open spec fn pdu_decode(text: Seq<u8>) -> Result<PduLayout, PduError> {
    match hex_parse(text) {
        Ok(b) => pdu_layout(b),
        Err(e) => Err(e),
    }
}

/// `d` is a record that the layout `l` decodes to. The timestamp is the one
/// the PDU spells out whenever that is a real date and time.
pub open spec fn record_of(d: SmsData, l: PduLayout) -> bool {
    &&& d.sender@ == l.sender
    &&& codes(d.content@) == layout_codes(l)
    &&& d.partial_info == l.partial
    &&& d.date.wf()
    &&& timestamp_fields(l.stamp).wf() ==> d.date == timestamp_fields(l.stamp)
}

fn copy_range(b: &[u8], from: usize, to: usize) -> (r: Vec<u8>)
    requires
        from <= to <= b@.len(),
    ensures
        r@ == b@.subrange(from as int, to as int),
{
    let mut r: Vec<u8> = Vec::new();
    let mut k = from;
    while k < to
        invariant
            from <= k <= to <= b@.len(),
            r@ == b@.subrange(from as int, k as int),
        decreases to - k,
    {
        r.push(b[k]);
        assert(b@.subrange(from as int, k as int).push(b@[k as int]) == b@.subrange(from as int, k + 1));
        k += 1;
    }
    r
}

/// Decodes an incoming-SMS PDU given as hex text, with the current UTC time
/// as the fallback date.
pub fn read_incoming_sms(pdu_hex: &str) -> (r: Result<SmsData, PduError>)
    ensures
        match pdu_decode(pdu_hex.spec_bytes()) {
            Ok(l) => r is Ok && record_of(r->Ok_0, l),
            Err(e) => r is Err && r->Err_0 == e,
        },
{
    read_incoming_sms_at(pdu_hex, utc_now())
}

/// Decodes an incoming-SMS PDU given as hex text, with the clock value `now`
/// as the fallback date.
pub fn read_incoming_sms_at(pdu_hex: &str, now: SmsTimestamp) -> (r: Result<SmsData, PduError>)
    requires
        now.wf(),
    ensures
        match pdu_decode(pdu_hex.spec_bytes()) {
            Ok(l) => r is Ok && record_of(r->Ok_0, l) && r->Ok_0.date == stamp_or(l.stamp, now),
            Err(e) => r is Err && r->Err_0 == e,
        },
{
    let b = match hex_to_bytes(pdu_hex) {
        Ok(v) => v,
        Err(e) => {
            return Err(e);
        },
    };
    let n = b.len();
    if n == 0 {
        return Err(PduError::Empty);
    }
    let type_at = 1 + b[0] as usize;
    if type_at >= n || n - type_at < 3 {
        return Err(PduError::TruncatedHeader);
    }
    let ty = b[type_at];
    let slen = b[type_at + 1];
    let stype = b[type_at + 2];
    let addr_at = type_at + 3;
    let sbl = (slen as usize + 1) / 2;
    if n - addr_at < sbl + 10 {
        return Err(PduError::TruncatedHeader);
    }
    let number_bytes = copy_range(b.as_slice(), addr_at, addr_at + sbl);
    let digits = decode_number(number_bytes.as_slice(), slen as usize);
    let sender = if stype == 0x91 {
        let mut s = String::new();
        push_char(&mut s, '+');
        s.append(digits.as_str());
        s
    } else {
        digits
    };
    let dcs = b[addr_at + sbl + 1];
    let ucs2 = dcs & 0x08 != 0;
    assert(dcs & 0x08 != 0 <==> (dcs / 8) % 2 == 1) by (bit_vector);
    let stamp_at = addr_at + sbl + 2;
    let udl_byte = b[stamp_at + 7];
    let need: usize = if ucs2 {
        udl_byte as usize
    } else {
        (7 * udl_byte as usize + 7) / 8
    };
    if n - (stamp_at + 8) < need {
        return Err(PduError::TruncatedUserData);
    }
    let stamp = copy_range(b.as_slice(), stamp_at, stamp_at + 7);
    let date = decode_timestamp_at(stamp.as_slice(), now);
    let udl = b[stamp_at + 7];
    let data = copy_range(b.as_slice(), stamp_at + 8, n);
    let mut ul: usize = 0;
    let mut partial: Option<PartialInfo> = None;
    assert(ty & 0x40 != 0 <==> (ty / 64) % 2 == 1) by (bit_vector);
    if ty & 0x40 != 0 && data.len() > 0 {
        ul = data[0] as usize + 1;
        if data.len() >= ul && data.len() >= 6 {
            if data[1] == 0 {
                partial = Some(PartialInfo { reference: data[3] as u16, parts_count: data[4], part_number: data[5] });
            } else if data[1] == 8 && data.len() >= 7 {
                partial = Some(
                    PartialInfo {
                        reference: (data[3] as u16) * 256 + data[4] as u16,
                        parts_count: data[5],
                        part_number: data[6],
                    },
                );
            }
        }
    }
    let content_bytes = if ul <= data.len() {
        copy_range(data.as_slice(), ul, data.len())
    } else {
        Vec::new()
    };
    let content = if ucs2 {
        decode_ucs2(content_bytes.as_slice())
    } else {
        decode_7bit(content_bytes.as_slice(), udl as usize)
    };
    proof {
        let l = pdu_layout(b@);
        assert(l is Ok);
        assert(l->Ok_0.sender == sender@);
        assert(l->Ok_0.content == content_bytes@);
        assert(l->Ok_0.partial == partial);
    }
    Ok(SmsData { sender, content, date, partial_info: partial })
}

/// Decoding is a function of the PDU and the clock: any two records that
/// one PDU decodes to under the same clock value agree on every field.
pub proof fn lemma_decode_deterministic_at(text: Seq<u8>, now: SmsTimestamp, d1: SmsData, d2: SmsData)
    requires
        pdu_decode(text) is Ok,
        record_of(d1, pdu_decode(text)->Ok_0),
        record_of(d2, pdu_decode(text)->Ok_0),
        d1.date == stamp_or(pdu_decode(text)->Ok_0.stamp, now),
        d2.date == stamp_or(pdu_decode(text)->Ok_0.stamp, now),
    ensures
        d1.sender@ == d2.sender@,
        codes(d1.content@) == codes(d2.content@),
        d1.partial_info == d2.partial_info,
        d1.date == d2.date,
{
}

/// Decoding is a function of the PDU: any two records that one PDU decodes
/// to have the same sender, text and concatenation descriptor, and, when the
/// PDU's timestamp names a real date and time, the same date.
pub proof fn lemma_decode_deterministic(text: Seq<u8>, d1: SmsData, d2: SmsData)
    requires
        pdu_decode(text) is Ok,
        record_of(d1, pdu_decode(text)->Ok_0),
        record_of(d2, pdu_decode(text)->Ok_0),
        timestamp_fields(pdu_decode(text)->Ok_0.stamp).wf(),
    ensures
        d1.sender@ == d2.sender@,
        codes(d1.content@) == codes(d2.content@),
        d1.partial_info == d2.partial_info,
        d1.date == d2.date,
{
}

/// UCS-2 (big-endian) bytes of a sequence of 16-bit units.
pub open spec fn ucs2_bytes(u: Seq<u16>) -> Seq<u8>
    decreases u.len(),
{
    if u.len() == 0 {
        seq![]
    } else {
        seq![(u[0] / 256) as u8, (u[0] % 256) as u8] + ucs2_bytes(u.drop_first())
    }
}

/// No unit is a surrogate: each stands for one code point of the BMP.
pub open spec fn bmp_only(u: Seq<u16>) -> bool {
    forall|i: int| 0 <= i < u.len() ==> (#[trigger] u[i] < 0xD800 || u[i] > 0xDFFF)
}

proof fn lemma_ucs2_bytes_len(u: Seq<u16>)
    ensures
        ucs2_bytes(u).len() == 2 * u.len(),
    decreases u.len(),
{
    if u.len() > 0 {
        lemma_ucs2_bytes_len(u.drop_first());
    }
}

proof fn lemma_units_of_ucs2(u: Seq<u16>)
    ensures
        units_of(ucs2_bytes(u)) == u,
    decreases u.len(),
{
    lemma_ucs2_bytes_len(u);
    if u.len() > 0 {
        let t = u.drop_first();
        lemma_units_of_ucs2(t);
        lemma_ucs2_bytes_len(t);
        let b = ucs2_bytes(u);
        let bt = ucs2_bytes(t);
        assert(b.subrange(2, b.len() as int) == bt);
        assert forall|i: int| 0 <= i < u.len() implies #[trigger] units_of(b)[i] == u[i] by {
            if i == 0 {
                assert(b[0] == (u[0] / 256) as u8);
                assert(b[1] == (u[0] % 256) as u8);
            } else {
                assert(b[2 * i] == bt[2 * (i - 1)]);
                assert(b[2 * i + 1] == bt[2 * (i - 1) + 1]);
                assert(units_of(bt)[i - 1] == t[i - 1]);
            }
        }
        assert(units_of(b) =~= u);
    }
}

proof fn lemma_utf16_bmp(u: Seq<u16>)
    requires
        bmp_only(u),
    ensures
        utf16_codes(u) == u.map_values(|x: u16| x as u32),
    decreases u.len(),
{
    if u.len() > 0 {
        let t = u.drop_first();
        assert(bmp_only(t)) by {
            assert forall|i: int| 0 <= i < t.len() implies (#[trigger] t[i] < 0xD800 || t[i] > 0xDFFF) by {
                assert(t[i] == u[i + 1]);
            }
        }
        lemma_utf16_bmp(t);
        assert(u[0] < 0xD800 || u[0] > 0xDFFF);
        assert(utf16_codes(u) =~= u.map_values(|x: u16| x as u32));
    }
}

/// UCS-2 text keeps its code points: the bytes of BMP units (no surrogates)
/// decode to exactly those units.
pub proof fn lemma_ucs2_round_trip(u: Seq<u16>)
    requires
        bmp_only(u),
    ensures
        utf16_codes(units_of(ucs2_bytes(u))) == u.map_values(|x: u16| x as u32),
{
    lemma_units_of_ucs2(u);
    lemma_utf16_bmp(u);
}

/// A Unicode scalar value: at most 0x10FFFF and no surrogate.
pub open spec fn is_scalar_code(c: u32) -> bool {
    c <= 0x10FFFF && !(0xD800 <= c && c <= 0xDFFF)
}

/// UTF-16 units of a sequence of code points: one unit in the BMP, a
/// high/low surrogate pair above it.
pub open spec fn utf16_units(cps: Seq<u32>) -> Seq<u16>
    decreases cps.len(),
{
    if cps.len() == 0 {
        seq![]
    } else {
        let c = cps[0];
        let head = if c < 0x10000 {
            seq![c as u16]
        } else {
            seq![(0xD800 + (c - 0x10000) / 0x400) as u16, (0xDC00 + (c - 0x10000) % 0x400) as u16]
        };
        head + utf16_units(cps.drop_first())
    }
}

proof fn lemma_utf16_units_decode(cps: Seq<u32>)
    requires
        forall|i: int| 0 <= i < cps.len() ==> is_scalar_code(#[trigger] cps[i]),
    ensures
        utf16_codes(utf16_units(cps)) == cps,
    decreases cps.len(),
{
    if cps.len() > 0 {
        let c = cps[0];
        let t = cps.drop_first();
        assert forall|i: int| 0 <= i < t.len() implies is_scalar_code(#[trigger] t[i]) by {
            assert(t[i] == cps[i + 1]);
        }
        lemma_utf16_units_decode(t);
        let rest = utf16_units(t);
        let u = utf16_units(cps);
        assert(is_scalar_code(cps[0]));
        if c < 0x10000 {
            assert(u == seq![c as u16] + rest);
            assert(u.drop_first() == rest);
            assert(u[0] == c as u16);
            assert(utf16_codes(u) == seq![c] + utf16_codes(rest));
        } else {
            let v = c - 0x10000;
            let hi = (0xD800 + v / 0x400) as u16;
            let lo = (0xDC00 + v % 0x400) as u16;
            assert(u == seq![hi, lo] + rest);
            assert(u.subrange(2, u.len() as int) == rest);
            assert(u[0] == hi && u[1] == lo);
            assert(v == (v / 0x400) * 0x400 + v % 0x400);
            assert(0xD800 <= hi <= 0xDBFF);
            assert(0xDC00 <= lo <= 0xDFFF);
            assert((0x10000 + (hi - 0xD800) * 0x400 + (lo - 0xDC00)) as u32 == c);
            assert(utf16_codes(u) == seq![c] + utf16_codes(rest));
        }
        assert(seq![c] + t == cps);
    }
}

/// UCS-2 text keeps every code point: the big-endian bytes of the UTF-16
/// form of any scalar values, surrogate pairs included, decode to exactly
/// those values.
pub proof fn lemma_ucs2_round_trip_all(cps: Seq<u32>)
    requires
        forall|i: int| 0 <= i < cps.len() ==> is_scalar_code(#[trigger] cps[i]),
    ensures
        utf16_codes(units_of(ucs2_bytes(utf16_units(cps)))) == cps,
{
    lemma_units_of_ucs2(utf16_units(cps));
    lemma_utf16_units_decode(cps);
}

} // verus!
