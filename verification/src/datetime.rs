//! Timezone-aware timestamps as plain calendar fields, rendered as RFC 3339
//! text. The only outside call is reading the clock.
use vstd::prelude::*;
use chrono::Datelike;
use chrono::Timelike;
use crate::numtext::dec_digits;
use crate::numtext::push_dec_u64;
use crate::text::chars_to_string;

verus! {

/// A calendar timestamp: date, time of day to the millisecond, and a UTC
/// offset in minutes. Valid values are exactly those RFC 3339 can spell.
#[derive(Clone, Copy, PartialEq, Eq, Structural, Debug)]
pub struct QxDateTime {
    pub year: u16,
    pub month: u8,
    pub day: u8,
    pub hour: u8,
    pub minute: u8,
    pub second: u8,
    pub msec: u16,
    pub offset_min: i16,
}

pub open spec fn spec_is_leap_year(y: int) -> bool {
    y % 4 == 0 && (y % 100 != 0 || y % 400 == 0)
}

pub open spec fn spec_days_in_month(y: int, m: int) -> int {
    if m == 2 {
        if spec_is_leap_year(y) {
            29
        } else {
            28
        }
    } else if m == 4 || m == 6 || m == 9 || m == 11 {
        30
    } else {
        31
    }
}

impl QxDateTime {
    pub open spec fn wf(self) -> bool {
        &&& self.year <= 9999
        &&& 1 <= self.month <= 12
        &&& 1 <= self.day <= spec_days_in_month(self.year as int, self.month as int)
        &&& self.hour <= 23
        &&& self.minute <= 59
        &&& self.second <= 59
        &&& self.msec <= 999
        &&& -(24 * 60) < self.offset_min < 24 * 60
    }

    /// Whether the fields spell a date and time the calendar holds.
    pub fn is_wf(&self) -> (b: bool)
        ensures
            b == self.wf(),
    {
        self.year <= 9999 && 1 <= self.month && self.month <= 12 && 1 <= self.day
            && self.day <= days_in_month(self.year, self.month) && self.hour <= 23
            && self.minute <= 59 && self.second <= 59 && self.msec <= 999
            && -(24 * 60) < self.offset_min && self.offset_min < 24 * 60
    }

    /// Builds a timestamp, rejecting fields no calendar holds.
    pub fn new(
        year: u16,
        month: u8,
        day: u8,
        hour: u8,
        minute: u8,
        second: u8,
        msec: u16,
        offset_min: i16,
    ) -> (r: Option<QxDateTime>)
        ensures
            match r {
                Some(dt) => dt.wf() && dt == (QxDateTime {
                    year,
                    month,
                    day,
                    hour,
                    minute,
                    second,
                    msec,
                    offset_min,
                }),
                None => !(QxDateTime {
                    year,
                    month,
                    day,
                    hour,
                    minute,
                    second,
                    msec,
                    offset_min,
                }).wf(),
            },
    {
        let dt = QxDateTime { year, month, day, hour, minute, second, msec, offset_min };
        if year <= 9999 && 1 <= month && month <= 12 && 1 <= day
            && day <= days_in_month(year, month) && hour <= 23 && minute <= 59
            && second <= 59 && msec <= 999 && -(24 * 60) < offset_min
            && offset_min < 24 * 60 {
            Some(dt)
        } else {
            None
        }
    }
}

pub fn days_in_month(y: u16, m: u8) -> (d: u8)
    ensures
        d as int == spec_days_in_month(y as int, m as int),
{
    if m == 2 {
        if (y % 4 == 0) && (y % 100 != 0 || y % 400 == 0) {
            29
        } else {
            28
        }
    } else if m == 4 || m == 6 || m == 9 || m == 11 {
        30
    } else {
        31
    }
}

/// `w - dec_digits(n).len()` zeros, then the digits of `n`.
pub open spec fn padded(n: nat, w: nat) -> Seq<char> {
    Seq::new((w - dec_digits(n).len()) as nat, |i: int| '0') + dec_digits(n)
}

pub proof fn lemma_dec_digits_len2(n: nat)
    requires
        n < 100,
    ensures
        dec_digits(n).len() <= 2,
{
    if n >= 10 {
        assert(dec_digits(n) == dec_digits(n / 10).push(
            crate::numtext::digit_char((n % 10) as int),
        ));
        assert(dec_digits(n / 10).len() == 1);
    }
}

pub proof fn lemma_dec_digits_len3(n: nat)
    requires
        n < 1000,
    ensures
        dec_digits(n).len() <= 3,
{
    if n >= 10 {
        assert(dec_digits(n) == dec_digits(n / 10).push(
            crate::numtext::digit_char((n % 10) as int),
        ));
        lemma_dec_digits_len2(n / 10);
    }
}

pub proof fn lemma_dec_digits_len4(n: nat)
    requires
        n < 10000,
    ensures
        dec_digits(n).len() <= 4,
{
    if n >= 10 {
        assert(dec_digits(n) == dec_digits(n / 10).push(
            crate::numtext::digit_char((n % 10) as int),
        ));
        lemma_dec_digits_len3(n / 10);
    }
}

/// Appends the digits of `n`, left-padded with zeros to width `w`.
pub fn push_dec_padded(out: &mut Vec<char>, n: u64, w: usize)
    requires
        dec_digits(n as nat).len() <= w,
    ensures
        final(out)@ == old(out)@ + padded(n as nat, w as nat),
{
    let mut digits: Vec<char> = Vec::new();
    push_dec_u64(&mut digits, n);
    let k = digits.len();
    let mut i: usize = 0;
    while i < w - k
        invariant
            digits@ == dec_digits(n as nat),
            k == digits@.len() <= w,
            i <= w - k,
            out@ == old(out)@ + Seq::new(i as nat, |j: int| '0'),
        decreases w - k - i,
    {
        out.push('0');
        assert(out@ =~= old(out)@ + Seq::new((i + 1) as nat, |j: int| '0'));
        i = i + 1;
    }
    let mut digits = digits;
    out.append(&mut digits);
    assert(out@ =~= old(out)@ + padded(n as nat, w as nat));
}

/// The RFC 3339 text of a timestamp, millisecond precision, numeric offset.
pub open spec fn rfc3339_chars(dt: QxDateTime) -> Seq<char> {
    let off = if dt.offset_min >= 0 {
        dt.offset_min as int
    } else {
        -(dt.offset_min as int)
    };
    let sign = if dt.offset_min >= 0 {
        '+'
    } else {
        '-'
    };
    padded(dt.year as nat, 4) + seq!['-'] + padded(dt.month as nat, 2) + seq!['-'] + padded(
        dt.day as nat,
        2,
    ) + seq!['T'] + padded(dt.hour as nat, 2) + seq![':'] + padded(dt.minute as nat, 2)
        + seq![':'] + padded(dt.second as nat, 2) + seq!['.'] + padded(dt.msec as nat, 3)
        + seq![sign] + padded((off / 60) as nat, 2) + seq![':'] + padded((off % 60) as nat, 2)
}

/// Renders a timestamp as RFC 3339 text.
pub fn to_rfc3339(dt: &QxDateTime) -> (s: String)
    requires
        dt.wf(),
    ensures
        s@ == rfc3339_chars(*dt),
{
    let mut out: Vec<char> = Vec::new();
    proof {
        lemma_dec_digits_len4(dt.year as nat);
        lemma_dec_digits_len2(dt.month as nat);
        lemma_dec_digits_len2(dt.day as nat);
        lemma_dec_digits_len2(dt.hour as nat);
        lemma_dec_digits_len2(dt.minute as nat);
        lemma_dec_digits_len2(dt.second as nat);
        lemma_dec_digits_len3(dt.msec as nat);
    }
    push_dec_padded(&mut out, dt.year as u64, 4);
    out.push('-');
    push_dec_padded(&mut out, dt.month as u64, 2);
    out.push('-');
    push_dec_padded(&mut out, dt.day as u64, 2);
    out.push('T');
    push_dec_padded(&mut out, dt.hour as u64, 2);
    out.push(':');
    push_dec_padded(&mut out, dt.minute as u64, 2);
    out.push(':');
    push_dec_padded(&mut out, dt.second as u64, 2);
    out.push('.');
    let mspad: usize = 3;
    push_dec_padded(&mut out, dt.msec as u64, mspad);
    let off: i16 = dt.offset_min;
    let (sign, mag): (char, u16) = if off >= 0 {
        ('+', off as u16)
    } else {
        ('-', (-(off as i32)) as u16)
    };
    out.push(sign);
    proof {
        lemma_dec_digits_len2((mag / 60) as nat);
        lemma_dec_digits_len2((mag % 60) as nat);
    }
    push_dec_padded(&mut out, (mag / 60) as u64, 2);
    out.push(':');
    push_dec_padded(&mut out, (mag % 60) as u64, 2);
    assert(out@ =~= rfc3339_chars(*dt));
    chars_to_string(&out)
}

/// Relies on `chrono::Utc::now` and the `Datelike`/`Timelike` accessors:
/// month is 1 to 12, day is 1 to 31, hour is at most 23, minute and second
/// at most 59, and the millisecond part at most 1999 (leap seconds).
/// `Utc::now` panics on a host clock set before the Unix epoch; that is
/// environmental and no `requires` can exclude it.
#[verifier::external_body]
fn now_utc_fields() -> (r: (i32, u32, u32, u32, u32, u32, u32))
    ensures
        1 <= r.1 <= 12,
        1 <= r.2 <= 31,
        r.3 <= 23,
        r.4 <= 59,
        r.5 <= 59,
        r.6 <= 1999,
{
    let n = chrono::Utc::now();
    (n.year(), n.month(), n.day(), n.hour(), n.minute(), n.second(), n.timestamp_subsec_millis())
}

/// The current time in UTC, clamped into the representable calendar range.
pub fn now_utc() -> (dt: QxDateTime)
    ensures
        dt.wf(),
        dt.offset_min == 0,
{
    let (y, mo, d, h, mi, s, ms) = now_utc_fields();
    let year: u16 = if y < 0 {
        0
    } else if y > 9999 {
        9999
    } else {
        y as u16
    };
    let month: u8 = mo as u8;
    let dim = days_in_month(year, month);
    let day: u8 = if d as u8 > dim {
        dim
    } else {
        d as u8
    };
    let msec: u16 = if ms > 999 {
        999
    } else {
        ms as u16
    };
    QxDateTime {
        year,
        month,
        day,
        hour: h as u8,
        minute: mi as u8,
        second: s as u8,
        msec,
        offset_min: 0,
    }
}

} // verus!
