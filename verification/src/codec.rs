//! The opaque storage blob for an event: a length-prefixed text encoding of
//! the application-level fields, with a proved round trip. Storage never
//! looks inside it. Only blobs this encoding wrote decode; a row whose
//! blob is in any other format is refused and skipped at load.
use vstd::prelude::*;
use crate::datetime::QxDateTime;
use crate::numtext::dec_digits;
use crate::numtext::dec_int;
use crate::numtext::push_dec_i64;
use crate::numtext::push_dec_u64;
use crate::text::chars_to_string;
use crate::text::push_str_chars;

verus! {

/// An event's application-level fields. The api token is carried here while
/// in memory; it is masked before crossing the RPC boundary.
#[derive(Debug, Clone)]
pub struct EventData {
    pub name: String,
    pub date: QxDateTime,
    pub owner: String,
    pub api_token: String,
    pub is_local: bool,
}

/// The mathematical model of an event's fields.
#[verifier::ext_equal]
pub struct EventDataV {
    pub name: Seq<char>,
    pub date: QxDateTime,
    pub owner: Seq<char>,
    pub api_token: Seq<char>,
    pub is_local: bool,
}

impl View for EventData {
    type V = EventDataV;

    open spec fn view(&self) -> EventDataV {
        EventDataV {
            name: self.name@,
            date: self.date,
            owner: self.owner@,
            api_token: self.api_token@,
            is_local: self.is_local,
        }
    }
}

/// A length-prefixed string: its length in decimal, a colon, its characters.
pub open spec fn enc_str(s: Seq<char>) -> Seq<char> {
    dec_digits(s.len()) + seq![':'] + s
}

/// A timestamp's fields in order, comma-separated.
pub open spec fn enc_date(dt: QxDateTime) -> Seq<char> {
    dec_digits(dt.year as nat) + seq![','] + dec_digits(dt.month as nat) + seq![','] + dec_digits(
        dt.day as nat,
    ) + seq![','] + dec_digits(dt.hour as nat) + seq![','] + dec_digits(dt.minute as nat)
        + seq![','] + dec_digits(dt.second as nat) + seq![','] + dec_digits(dt.msec as nat)
        + seq![','] + dec_int(dt.offset_min as int)
}

/// The whole blob: a version tag, then name, date, owner, api token and the
/// locality flag, pipe-separated.
pub open spec fn spec_encode(e: EventDataV) -> Seq<char> {
    "qxev1|"@ + enc_str(e.name) + seq!['|'] + enc_date(e.date) + seq!['|'] + enc_str(e.owner)
        + seq!['|'] + enc_str(e.api_token) + seq!['|'] + (if e.is_local {
        seq!['1']
    } else {
        seq!['0']
    })
}

/// Appends a length-prefixed string.
fn push_enc_str(out: &mut Vec<char>, s: &str)
    ensures
        final(out)@ == old(out)@ + enc_str(s@),
        s@.len() <= u64::MAX,
{
    let len = vstd::string::StrSliceExecFns::unicode_len(s);
    push_dec_u64(out, len as u64);
    out.push(':');
    push_str_chars(out, s);
    assert(out@ =~= old(out)@ + enc_str(s@));
}

/// Serializes an event's fields into the storage blob.
pub fn encode_event_data(e: &EventData) -> (s: String)
    ensures
        s@ == spec_encode(e@),
        bounded(e@),
{
    let out = encode_chars(e);
    chars_to_string(&out)
}

/// The blob's characters.
#[verifier::rlimit(60)]
fn encode_chars(e: &EventData) -> (out: Vec<char>)
    ensures
        out@ == spec_encode(e@),
        bounded(e@),
{
    let mut out: Vec<char> = Vec::new();
    push_str_chars(&mut out, "qxev1|");
    push_enc_str(&mut out, e.name.as_str());
    out.push('|');
    push_dec_u64(&mut out, e.date.year as u64);
    out.push(',');
    push_dec_u64(&mut out, e.date.month as u64);
    out.push(',');
    push_dec_u64(&mut out, e.date.day as u64);
    out.push(',');
    push_dec_u64(&mut out, e.date.hour as u64);
    out.push(',');
    push_dec_u64(&mut out, e.date.minute as u64);
    out.push(',');
    push_dec_u64(&mut out, e.date.second as u64);
    out.push(',');
    push_dec_u64(&mut out, e.date.msec as u64);
    out.push(',');
    push_dec_i64(&mut out, e.date.offset_min as i64);
    out.push('|');
    push_enc_str(&mut out, e.owner.as_str());
    out.push('|');
    push_enc_str(&mut out, e.api_token.as_str());
    out.push('|');
    if e.is_local {
        out.push('1');
    } else {
        out.push('0');
    }
    assert(out@ =~= spec_encode(e@));
    out
}

/// What reading a length-prefixed string at `pos` yields: the string and the
/// position just past it.
pub open spec fn spec_read_str(s: Seq<char>, pos: int) -> Option<(Seq<char>, int)> {
    match crate::numtext::spec_read_u64(s, pos) {
        None => None,
        Some((v, p)) => if p < s.len() && s[p] == ':' && p + 1 + v <= s.len() {
            Some((s.subrange(p + 1, p + 1 + v), p + 1 + v))
        } else {
            None
        },
    }
}

/// Reads a length-prefixed string.
fn read_str(s: &Vec<char>, pos: usize) -> (r: Option<(String, usize)>)
    requires
        pos <= s@.len(),
    ensures
        match r {
            Some(p) => spec_read_str(s@, pos as int) matches Some(q) && p.0@ == q.0 && p.1 == q.1,
            None => spec_read_str(s@, pos as int) is None,
        },
{
    match crate::numtext::read_u64(s, pos) {
        None => None,
        Some((v, p)) => {
            if p < s.len() && s[p] == ':' && v <= (s.len() - p - 1) as u64 {
                let end: usize = p + 1 + (v as usize);
                let mut out: Vec<char> = Vec::new();
                let mut j: usize = p + 1;
                while j < end
                    invariant
                        p + 1 <= j <= end <= s@.len(),
                        out@ == s@.subrange(p + 1, j as int),
                    decreases end - j,
                {
                    out.push(s[j]);
                    assert(out@ =~= s@.subrange(p + 1, j + 1));
                    j = j + 1;
                }
                Some((chars_to_string(&out), end))
            } else {
                None
            }
        },
    }
}

/// What reading a number followed by a comma at `pos` yields: the value and
/// the position just past the comma.
pub open spec fn spec_read_num_comma(s: Seq<char>, pos: int) -> Option<(int, int)> {
    match crate::numtext::spec_read_u64(s, pos) {
        None => None,
        Some((v, p)) => if p < s.len() && s[p] == ',' {
            Some((v, p + 1))
        } else {
            None
        },
    }
}

/// Reads a number followed by a comma.
fn read_num_comma(s: &Vec<char>, pos: usize) -> (r: Option<(u64, usize)>)
    requires
        pos <= s@.len(),
    ensures
        match r {
            Some(p) => spec_read_num_comma(s@, pos as int) == Some((p.0 as int, p.1 as int)),
            None => spec_read_num_comma(s@, pos as int) is None,
        },
{
    match crate::numtext::read_u64(s, pos) {
        None => None,
        Some((v, p)) => {
            if p < s.len() && s[p] == ',' {
                Some((v, p + 1))
            } else {
                None
            }
        },
    }
}

/// What reading a comma-separated date at `pos` yields: the timestamp and
/// the position just past its last field.
pub open spec fn spec_read_date(s: Seq<char>, pos: int) -> Option<(QxDateTime, int)> {
    match spec_read_num_comma(s, pos) {
        None => None,
        Some((y, p1)) => match spec_read_num_comma(s, p1) {
            None => None,
            Some((mo, p2)) => match spec_read_num_comma(s, p2) {
                None => None,
                Some((d, p3)) => match spec_read_num_comma(s, p3) {
                    None => None,
                    Some((h, p4)) => match spec_read_num_comma(s, p4) {
                        None => None,
                        Some((mi, p5)) => match spec_read_num_comma(s, p5) {
                            None => None,
                            Some((sec, p6)) => match spec_read_num_comma(s, p6) {
                                None => None,
                                Some((ms, p7)) => {
                                    let neg = p7 < s.len() && s[p7] == '-';
                                    let p8 = if neg {
                                        p7 + 1
                                    } else {
                                        p7
                                    };
                                    match crate::numtext::spec_read_u64(s, p8) {
                                        None => None,
                                        Some((omag, p9)) => {
                                            let off = if neg {
                                                -omag
                                            } else {
                                                omag
                                            };
                                            if y <= 9999 && mo <= 12 && d <= 31 && h <= 23 && mi
                                                <= 59 && sec <= 59 && ms <= 999 && omag <= 1439 {
                                                let dt = QxDateTime {
                                                    year: y as u16,
                                                    month: mo as u8,
                                                    day: d as u8,
                                                    hour: h as u8,
                                                    minute: mi as u8,
                                                    second: sec as u8,
                                                    msec: ms as u16,
                                                    offset_min: off as i16,
                                                };
                                                if dt.wf() {
                                                    Some((dt, p9))
                                                } else {
                                                    None
                                                }
                                            } else {
                                                None
                                            }
                                        },
                                    }
                                },
                            },
                        },
                    },
                },
            },
        },
    }
}

/// Reads a comma-separated date.
fn read_date(s: &Vec<char>, pos: usize) -> (r: Option<(QxDateTime, usize)>)
    requires
        pos <= s@.len(),
    ensures
        match r {
            Some(p) => spec_read_date(s@, pos as int) == Some((p.0, p.1 as int)),
            None => spec_read_date(s@, pos as int) is None,
        },
{
    let (y, p1) = match read_num_comma(s, pos) {
        Some(p) => p,
        None => {
            return None;
        },
    };
    let (mo, p2) = match read_num_comma(s, p1) {
        Some(p) => p,
        None => {
            return None;
        },
    };
    let (d, p3) = match read_num_comma(s, p2) {
        Some(p) => p,
        None => {
            return None;
        },
    };
    let (h, p4) = match read_num_comma(s, p3) {
        Some(p) => p,
        None => {
            return None;
        },
    };
    let (mi, p5) = match read_num_comma(s, p4) {
        Some(p) => p,
        None => {
            return None;
        },
    };
    let (sec, p6) = match read_num_comma(s, p5) {
        Some(p) => p,
        None => {
            return None;
        },
    };
    let (ms, p7) = match read_num_comma(s, p6) {
        Some(p) => p,
        None => {
            return None;
        },
    };
    let neg = p7 < s.len() && s[p7] == '-';
    let p8: usize = if neg {
        p7 + 1
    } else {
        p7
    };
    let (omag, p9) = match crate::numtext::read_u64(s, p8) {
        Some(p) => p,
        None => {
            return None;
        },
    };
    if !(y <= 9999 && mo <= 12 && d <= 31 && h <= 23 && mi <= 59 && sec <= 59 && ms <= 999 && omag
        <= 1439) {
        return None;
    }
    let off: i16 = if neg {
        -((omag as i16))
    } else {
        omag as i16
    };
    let dt = QxDateTime {
        year: y as u16,
        month: mo as u8,
        day: d as u8,
        hour: h as u8,
        minute: mi as u8,
        second: sec as u8,
        msec: ms as u16,
        offset_min: off,
    };
    if dt.is_wf() {
        Some((dt, p9))
    } else {
        None
    }
}

/// The model's strings fit the length prefixes the encoding writes.
pub open spec fn bounded(ev: EventDataV) -> bool {
    &&& ev.name.len() <= u64::MAX
    &&& ev.owner.len() <= u64::MAX
    &&& ev.api_token.len() <= u64::MAX
}

/// Reading at the start of `enc_str(t)` yields `t`.
pub proof fn lemma_read_str_at(s: Seq<char>, pos: int, t: Seq<char>)
    requires
        0 <= pos,
        t.len() <= u64::MAX,
        pos + enc_str(t).len() <= s.len(),
        s.subrange(pos, pos + enc_str(t).len()) == enc_str(t),
    ensures
        spec_read_str(s, pos) == Some((t, pos + enc_str(t).len())),
{
    let k = dec_digits(t.len()).len() as int;
    let el = enc_str(t).len() as int;
    let ee = enc_str(t);
    assert forall|j: int| pos <= j < pos + el implies #[trigger] s[j] == ee[j - pos] by {
        assert(s.subrange(pos, pos + el)[j - pos] == ee[j - pos]);
    }
    assert(s.subrange(pos, pos + k) =~= dec_digits(t.len())) by {
        assert forall|i: int| 0 <= i < k implies s.subrange(pos, pos + k)[i] == dec_digits(
            t.len(),
        )[i] by {
            assert(s[pos + i] == ee[i]);
        }
    }
    assert(s[pos + k] == ee[k]);
    assert(ee[k] == ':');
    assert(!crate::numtext::is_digit_char(':'));
    crate::numtext::lemma_read_encoded(s, pos, t.len());
    assert(s.subrange(pos + k + 1, pos + k + 1 + t.len()) =~= t) by {
        assert forall|i: int| 0 <= i < t.len() implies s.subrange(
            pos + k + 1,
            pos + k + 1 + t.len(),
        )[i] == t[i] by {
            assert(s[pos + k + 1 + i] == ee[k + 1 + i]);
            assert(ee[k + 1 + i] == t[i]);
        }
    }
}

/// Reading at the start of `dec_digits(n)` followed by a comma yields `n`.
pub proof fn lemma_read_num_comma_at(s: Seq<char>, pos: int, n: nat)
    requires
        n <= u64::MAX,
        0 <= pos,
        pos + dec_digits(n).len() + 1 <= s.len(),
        s.subrange(pos, pos + dec_digits(n).len()) == dec_digits(n),
        s[pos + dec_digits(n).len()] == ',',
    ensures
        spec_read_num_comma(s, pos) == Some((n as int, pos + dec_digits(n).len() + 1)),
{
    assert(!crate::numtext::is_digit_char(','));
    crate::numtext::lemma_read_encoded(s, pos, n);
}

/// The positions inside `enc_date(dt)` after each comma-terminated field.
spec fn dq1(dt: QxDateTime, pos: int) -> int {
    pos + dec_digits(dt.year as nat).len() + 1
}

spec fn dq2(dt: QxDateTime, pos: int) -> int {
    dq1(dt, pos) + dec_digits(dt.month as nat).len() + 1
}

spec fn dq3(dt: QxDateTime, pos: int) -> int {
    dq2(dt, pos) + dec_digits(dt.day as nat).len() + 1
}

spec fn dq4(dt: QxDateTime, pos: int) -> int {
    dq3(dt, pos) + dec_digits(dt.hour as nat).len() + 1
}

spec fn dq5(dt: QxDateTime, pos: int) -> int {
    dq4(dt, pos) + dec_digits(dt.minute as nat).len() + 1
}

spec fn dq6(dt: QxDateTime, pos: int) -> int {
    dq5(dt, pos) + dec_digits(dt.second as nat).len() + 1
}

spec fn dq7(dt: QxDateTime, pos: int) -> int {
    dq6(dt, pos) + dec_digits(dt.msec as nat).len() + 1
}

/// Each comma-terminated field of `enc_date(dt)` reads back as itself.
#[verifier::rlimit(100)]
proof fn lemma_read_date_nums(s: Seq<char>, pos: int, dt: QxDateTime)
    requires
        dt.wf(),
        0 <= pos,
        pos + enc_date(dt).len() <= s.len(),
        s.subrange(pos, pos + enc_date(dt).len()) == enc_date(dt),
    ensures
        spec_read_num_comma(s, pos) == Some((dt.year as int, dq1(dt, pos))),
        spec_read_num_comma(s, dq1(dt, pos)) == Some((dt.month as int, dq2(dt, pos))),
        spec_read_num_comma(s, dq2(dt, pos)) == Some((dt.day as int, dq3(dt, pos))),
        spec_read_num_comma(s, dq3(dt, pos)) == Some((dt.hour as int, dq4(dt, pos))),
        spec_read_num_comma(s, dq4(dt, pos)) == Some((dt.minute as int, dq5(dt, pos))),
        spec_read_num_comma(s, dq5(dt, pos)) == Some((dt.second as int, dq6(dt, pos))),
        spec_read_num_comma(s, dq6(dt, pos)) == Some((dt.msec as int, dq7(dt, pos))),
{
    let d1 = dec_digits(dt.year as nat);
    let d2 = dec_digits(dt.month as nat);
    let d3 = dec_digits(dt.day as nat);
    let d4 = dec_digits(dt.hour as nat);
    let d5 = dec_digits(dt.minute as nat);
    let d6 = dec_digits(dt.second as nat);
    let d7 = dec_digits(dt.msec as nat);
    let el = enc_date(dt).len() as int;
    let ed = enc_date(dt);
    assert forall|j: int| pos <= j < pos + el implies #[trigger] s[j] == ed[j - pos] by {
        assert(s.subrange(pos, pos + el)[j - pos] == ed[j - pos]);
    }
    let q1 = dq1(dt, pos);
    let q2 = dq2(dt, pos);
    let q3 = dq3(dt, pos);
    let q4 = dq4(dt, pos);
    let q5 = dq5(dt, pos);
    let q6 = dq6(dt, pos);
    let q7 = dq7(dt, pos);
    assert(s.subrange(pos, pos + d1.len() as int) =~= d1) by {
        assert forall|i: int| 0 <= i < d1.len() implies s.subrange(
            pos,
            pos + d1.len() as int,
        )[i] == d1[i] by {
            assert(s[pos + i] == ed[pos + i - pos]);
        }
    }
    assert(s[q1 - 1] == ed[q1 - 1 - pos]);
    assert(ed[q1 - 1 - pos] == ',');
    lemma_read_num_comma_at(s, pos, dt.year as nat);
    assert(s.subrange(q1, q1 + d2.len() as int) =~= d2) by {
        assert forall|i: int| 0 <= i < d2.len() implies s.subrange(
            q1,
            q1 + d2.len() as int,
        )[i] == d2[i] by {
            assert(s[q1 + i] == ed[q1 + i - pos]);
        }
    }
    assert(s[q2 - 1] == ed[q2 - 1 - pos]);
    assert(ed[q2 - 1 - pos] == ',');
    lemma_read_num_comma_at(s, q1, dt.month as nat);
    assert(s.subrange(q2, q2 + d3.len() as int) =~= d3) by {
        assert forall|i: int| 0 <= i < d3.len() implies s.subrange(
            q2,
            q2 + d3.len() as int,
        )[i] == d3[i] by {
            assert(s[q2 + i] == ed[q2 + i - pos]);
        }
    }
    assert(s[q3 - 1] == ed[q3 - 1 - pos]);
    assert(ed[q3 - 1 - pos] == ',');
    lemma_read_num_comma_at(s, q2, dt.day as nat);
    assert(s.subrange(q3, q3 + d4.len() as int) =~= d4) by {
        assert forall|i: int| 0 <= i < d4.len() implies s.subrange(
            q3,
            q3 + d4.len() as int,
        )[i] == d4[i] by {
            assert(s[q3 + i] == ed[q3 + i - pos]);
        }
    }
    assert(s[q4 - 1] == ed[q4 - 1 - pos]);
    assert(ed[q4 - 1 - pos] == ',');
    lemma_read_num_comma_at(s, q3, dt.hour as nat);
    assert(s.subrange(q4, q4 + d5.len() as int) =~= d5) by {
        assert forall|i: int| 0 <= i < d5.len() implies s.subrange(
            q4,
            q4 + d5.len() as int,
        )[i] == d5[i] by {
            assert(s[q4 + i] == ed[q4 + i - pos]);
        }
    }
    assert(s[q5 - 1] == ed[q5 - 1 - pos]);
    assert(ed[q5 - 1 - pos] == ',');
    lemma_read_num_comma_at(s, q4, dt.minute as nat);
    assert(s.subrange(q5, q5 + d6.len() as int) =~= d6) by {
        assert forall|i: int| 0 <= i < d6.len() implies s.subrange(
            q5,
            q5 + d6.len() as int,
        )[i] == d6[i] by {
            assert(s[q5 + i] == ed[q5 + i - pos]);
        }
    }
    assert(s[q6 - 1] == ed[q6 - 1 - pos]);
    assert(ed[q6 - 1 - pos] == ',');
    lemma_read_num_comma_at(s, q5, dt.second as nat);
    assert(s.subrange(q6, q6 + d7.len() as int) =~= d7) by {
        assert forall|i: int| 0 <= i < d7.len() implies s.subrange(
            q6,
            q6 + d7.len() as int,
        )[i] == d7[i] by {
            assert(s[q6 + i] == ed[q6 + i - pos]);
        }
    }
    assert(s[q7 - 1] == ed[q7 - 1 - pos]);
    assert(ed[q7 - 1 - pos] == ',');
    lemma_read_num_comma_at(s, q6, dt.msec as nat);
}

/// Reading at the start of `enc_date(dt)` yields `dt`.
#[verifier::rlimit(100)]
pub proof fn lemma_read_date_at(s: Seq<char>, pos: int, dt: QxDateTime)
    requires
        dt.wf(),
        0 <= pos,
        pos + enc_date(dt).len() <= s.len(),
        s.subrange(pos, pos + enc_date(dt).len()) == enc_date(dt),
        pos + enc_date(dt).len() == s.len() || !crate::numtext::is_digit_char(
            s[pos + enc_date(dt).len()],
        ),
    ensures
        spec_read_date(s, pos) == Some((dt, pos + enc_date(dt).len())),
{
    lemma_read_date_nums(s, pos, dt);
    let o = dec_int(dt.offset_min as int);
    let el = enc_date(dt).len() as int;
    let ed = enc_date(dt);
    assert forall|j: int| pos <= j < pos + el implies #[trigger] s[j] == ed[j - pos] by {
        assert(s.subrange(pos, pos + el)[j - pos] == ed[j - pos]);
    }
    let q7 = dq7(dt, pos);
    let end = q7 + o.len();
    assert(end == pos + el);
    if dt.offset_min >= 0 {
        let om = dt.offset_min as nat;
        assert(o == dec_digits(om));
        assert(s.subrange(q7, end) =~= dec_digits(om)) by {
            assert forall|i: int| 0 <= i < o.len() implies s.subrange(q7, end)[i] == o[i] by {
                assert(s[q7 + i] == ed[q7 + i - pos]);
            }
        }
        crate::numtext::lemma_read_encoded(s, q7, om);
        crate::numtext::lemma_dec_digits_are_digits(om);
        assert(s[q7] != '-');
    } else {
        let om = (-(dt.offset_min as int)) as nat;
        assert(o == seq!['-'] + dec_digits(om));
        assert(s[q7] == ed[q7 - pos]);
        assert(ed[q7 - pos] == '-');
        assert(s.subrange(q7 + 1, end) =~= dec_digits(om)) by {
            assert forall|i: int| 0 <= i < dec_digits(om).len() implies s.subrange(
                q7 + 1,
                end,
            )[i] == dec_digits(om)[i] by {
                assert(s[q7 + 1 + i] == ed[q7 + 1 + i - pos]);
            }
        }
        crate::numtext::lemma_read_encoded(s, q7 + 1, om);
    }
}

/// The positions of a `&str` view.
pub open spec fn dpos1(ev: EventDataV) -> int {
    6 + enc_str(ev.name).len() as int
}

pub open spec fn dpos2(ev: EventDataV) -> int {
    dpos1(ev) + 1 + enc_date(ev.date).len() as int
}

pub open spec fn dpos3(ev: EventDataV) -> int {
    dpos2(ev) + 1 + enc_str(ev.owner).len() as int
}

pub open spec fn dpos4(ev: EventDataV) -> int {
    dpos3(ev) + 1 + enc_str(ev.api_token).len() as int
}

/// What every parsing step yields on an encoded blob: each field at its
/// position, each separator in its place.
#[verifier::rlimit(100)]
pub proof fn lemma_decode_facts(s: Seq<char>, ev: EventDataV)
    requires
        ev.date.wf(),
        bounded(ev),
        s == spec_encode(ev),
    ensures
        s.len() == dpos4(ev) + 2,
        s.subrange(0, 6) == "qxev1|"@,
        spec_read_str(s, 6) == Some((ev.name, dpos1(ev))),
        s[dpos1(ev)] == '|',
        spec_read_date(s, dpos1(ev) + 1) == Some((ev.date, dpos2(ev))),
        s[dpos2(ev)] == '|',
        spec_read_str(s, dpos2(ev) + 1) == Some((ev.owner, dpos3(ev))),
        s[dpos3(ev)] == '|',
        spec_read_str(s, dpos3(ev) + 1) == Some((ev.api_token, dpos4(ev))),
        s[dpos4(ev)] == '|',
        s[dpos4(ev) + 1] == (if ev.is_local {
            '1'
        } else {
            '0'
        }),
{
    reveal_strlit("qxev1|");
    let m = "qxev1|"@;
    assert(m.len() == 6);
    let e1 = enc_str(ev.name);
    let ed = enc_date(ev.date);
    let e2 = enc_str(ev.owner);
    let e3 = enc_str(ev.api_token);
    assert(s.len() == dpos4(ev) + 2);
    assert(s.subrange(0, 6) =~= m) by {
        assert forall|i: int| 0 <= i < 6 implies s.subrange(0, 6)[i] == m[i] by {
            assert(s[i] == spec_encode(ev)[i]);
        }
    }
    assert(s.subrange(6, dpos1(ev)) =~= e1) by {
        assert forall|i: int| 0 <= i < e1.len() implies s.subrange(6, dpos1(ev))[i] == e1[i] by {
            assert(s[6 + i] == spec_encode(ev)[6 + i]);
        }
    }
    lemma_read_str_at(s, 6, ev.name);
    assert(s[dpos1(ev)] == '|') by {
        assert(s[dpos1(ev)] == spec_encode(ev)[dpos1(ev)]);
    }
    assert(s.subrange(dpos1(ev) + 1, dpos1(ev) + 1 + ed.len()) =~= ed) by {
        assert forall|i: int| 0 <= i < ed.len() implies s.subrange(
            dpos1(ev) + 1,
            dpos1(ev) + 1 + ed.len(),
        )[i] == ed[i] by {
            assert(s[dpos1(ev) + 1 + i] == spec_encode(ev)[dpos1(ev) + 1 + i]);
        }
    }
    assert(s[dpos2(ev)] == '|') by {
        assert(s[dpos2(ev)] == spec_encode(ev)[dpos2(ev)]);
    }
    assert(!crate::numtext::is_digit_char('|'));
    lemma_read_date_at(s, dpos1(ev) + 1, ev.date);
    assert(s.subrange(dpos2(ev) + 1, dpos2(ev) + 1 + e2.len()) =~= e2) by {
        assert forall|i: int| 0 <= i < e2.len() implies s.subrange(
            dpos2(ev) + 1,
            dpos2(ev) + 1 + e2.len(),
        )[i] == e2[i] by {
            assert(s[dpos2(ev) + 1 + i] == spec_encode(ev)[dpos2(ev) + 1 + i]);
        }
    }
    lemma_read_str_at(s, dpos2(ev) + 1, ev.owner);
    assert(s[dpos3(ev)] == '|') by {
        assert(s[dpos3(ev)] == spec_encode(ev)[dpos3(ev)]);
    }
    assert(s.subrange(dpos3(ev) + 1, dpos3(ev) + 1 + e3.len()) =~= e3) by {
        assert forall|i: int| 0 <= i < e3.len() implies s.subrange(
            dpos3(ev) + 1,
            dpos3(ev) + 1 + e3.len(),
        )[i] == e3[i] by {
            assert(s[dpos3(ev) + 1 + i] == spec_encode(ev)[dpos3(ev) + 1 + i]);
        }
    }
    lemma_read_str_at(s, dpos3(ev) + 1, ev.api_token);
    assert(s[dpos4(ev)] == '|') by {
        assert(s[dpos4(ev)] == spec_encode(ev)[dpos4(ev)]);
    }
    assert(s[dpos4(ev) + 1] == (if ev.is_local {
        '1'
    } else {
        '0'
    })) by {
        assert(s[dpos4(ev) + 1] == spec_encode(ev)[dpos4(ev) + 1]);
    }
}

/// Compares two character vectors.
fn vec_char_eq(a: &Vec<char>, b: &Vec<char>) -> (r: bool)
    ensures
        r == (a@ == b@),
{
    if a.len() != b.len() {
        return false;
    }
    let mut i: usize = 0;
    while i < a.len()
        invariant
            i <= a@.len(),
            a@.len() == b@.len(),
            forall|j: int| 0 <= j < i ==> a@[j] == b@[j],
        decreases a@.len() - i,
    {
        if a[i] != b[i] {
            return false;
        }
        i = i + 1;
    }
    assert(a@ =~= b@);
    true
}

/// Whether `s` begins with the characters of `lit`.
fn starts_with(s: &Vec<char>, lit: &str) -> (b: bool)
    ensures
        b == (lit@.len() <= s@.len() && s@.subrange(0, lit@.len() as int) == lit@),
{
    let ll = vstd::string::StrSliceExecFns::unicode_len(lit);
    if ll > s.len() {
        return false;
    }
    let mut i: usize = 0;
    while i < ll
        invariant
            i <= ll,
            ll == lit@.len(),
            ll <= s@.len(),
            forall|j: int| 0 <= j < i ==> s@[j] == lit@[j],
        decreases ll - i,
    {
        if s[i] != vstd::string::StrSliceExecFns::get_char(lit, i) {
            proof {
                assert(s@.subrange(0, ll as int)[i as int] != lit@[i as int]);
            }
            return false;
        }
        i = i + 1;
    }
    assert(s@.subrange(0, ll as int) =~= lit@);
    true
}

/// Deserializes a storage blob back into an event's fields. Yields the
/// fields exactly when the blob is one this encoding writes: decoding what
/// `encode_event_data` produced gives back equal fields, and whatever
/// decodes was produced by that encoding.
pub fn decode_event_data(s: &str) -> (r: Option<EventData>)
    ensures
        r matches Some(d) ==> s@ == spec_encode(d@) && d.date.wf(),
        forall|ev: EventDataV|
            ev.date.wf() && bounded(ev) && s@ == #[trigger] spec_encode(ev) ==> (r matches Some(d)
                && d@ == ev),
{
    let sv = crate::text::str_to_chars(s);
    proof {
        reveal_strlit("qxev1|");
    }
    if !starts_with(&sv, "qxev1|") {
        proof {
            assert forall|ev: EventDataV|
                ev.date.wf() && bounded(ev) && s@ == #[trigger] spec_encode(ev) implies false by {
                lemma_decode_facts(s@, ev);
            }
        }
        return None;
    }
    let (name, p1) = match read_str(&sv, 6) {
        Some(p) => p,
        None => {
            proof {
                assert forall|ev: EventDataV|
                    ev.date.wf() && bounded(ev) && s@ == #[trigger] spec_encode(ev) implies
                false by {
                    lemma_decode_facts(s@, ev);
                }
            }
            return None;
        },
    };
    if !(p1 < sv.len() && sv[p1] == '|') {
        proof {
            assert forall|ev: EventDataV|
                ev.date.wf() && bounded(ev) && s@ == #[trigger] spec_encode(ev) implies false by {
                lemma_decode_facts(s@, ev);
            }
        }
        return None;
    }
    let (date, p2) = match read_date(&sv, p1 + 1) {
        Some(p) => p,
        None => {
            proof {
                assert forall|ev: EventDataV|
                    ev.date.wf() && bounded(ev) && s@ == #[trigger] spec_encode(ev) implies
                false by {
                    lemma_decode_facts(s@, ev);
                }
            }
            return None;
        },
    };
    if !(p2 < sv.len() && sv[p2] == '|') {
        proof {
            assert forall|ev: EventDataV|
                ev.date.wf() && bounded(ev) && s@ == #[trigger] spec_encode(ev) implies false by {
                lemma_decode_facts(s@, ev);
            }
        }
        return None;
    }
    let (owner, p3) = match read_str(&sv, p2 + 1) {
        Some(p) => p,
        None => {
            proof {
                assert forall|ev: EventDataV|
                    ev.date.wf() && bounded(ev) && s@ == #[trigger] spec_encode(ev) implies
                false by {
                    lemma_decode_facts(s@, ev);
                }
            }
            return None;
        },
    };
    if !(p3 < sv.len() && sv[p3] == '|') {
        proof {
            assert forall|ev: EventDataV|
                ev.date.wf() && bounded(ev) && s@ == #[trigger] spec_encode(ev) implies false by {
                lemma_decode_facts(s@, ev);
            }
        }
        return None;
    }
    let (api_token, p4) = match read_str(&sv, p3 + 1) {
        Some(p) => p,
        None => {
            proof {
                assert forall|ev: EventDataV|
                    ev.date.wf() && bounded(ev) && s@ == #[trigger] spec_encode(ev) implies
                false by {
                    lemma_decode_facts(s@, ev);
                }
            }
            return None;
        },
    };
    if !(p4 < sv.len() && sv[p4] == '|' && p4 + 1 < sv.len() && p4 + 2 == sv.len()) {
        proof {
            assert forall|ev: EventDataV|
                ev.date.wf() && bounded(ev) && s@ == #[trigger] spec_encode(ev) implies false by {
                lemma_decode_facts(s@, ev);
            }
        }
        return None;
    }
    let lc = sv[p4 + 1];
    if !(lc == '1' || lc == '0') {
        proof {
            assert forall|ev: EventDataV|
                ev.date.wf() && bounded(ev) && s@ == #[trigger] spec_encode(ev) implies false by {
                lemma_decode_facts(s@, ev);
            }
        }
        return None;
    }
    let d = EventData { name, date, owner, api_token, is_local: lc == '1' };
    let re = encode_chars(&d);
    if !vec_char_eq(&re, &sv) {
        proof {
            assert forall|ev: EventDataV|
                ev.date.wf() && bounded(ev) && s@ == #[trigger] spec_encode(ev) implies false by {
                lemma_decode_facts(s@, ev);
                assert(d@ =~= ev);
            }
        }
        return None;
    }
    proof {
        assert(s@ == spec_encode(d@));
        assert forall|ev: EventDataV|
            ev.date.wf() && bounded(ev) && s@ == #[trigger] spec_encode(ev) implies d@ == ev by {
            lemma_decode_facts(s@, ev);
            assert(d@ =~= ev);
        }
    }
    Some(d)
}

} // verus!
