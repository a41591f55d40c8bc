//! Decimal text for integers: formatting and parsing, with exact contracts.
use vstd::prelude::*;

verus! {

pub open spec fn is_digit_char(c: char) -> bool {
    '0' <= c && c <= '9'
}

pub open spec fn digit_val(c: char) -> int {
    c as int - 48
}

pub open spec fn digit_char(d: int) -> char {
    if d == 0 {
        '0'
    } else if d == 1 {
        '1'
    } else if d == 2 {
        '2'
    } else if d == 3 {
        '3'
    } else if d == 4 {
        '4'
    } else if d == 5 {
        '5'
    } else if d == 6 {
        '6'
    } else if d == 7 {
        '7'
    } else if d == 8 {
        '8'
    } else {
        '9'
    }
}

/// The decimal digits of `n`, most significant first.
pub open spec fn dec_digits(n: nat) -> Seq<char>
    decreases n,
{
    if n < 10 {
        seq![digit_char(n as int)]
    } else {
        dec_digits(n / 10).push(digit_char((n % 10) as int))
    }
}

/// The decimal text of a signed integer: a `-` sign, then the digits.
pub open spec fn dec_int(i: int) -> Seq<char> {
    if i >= 0 {
        dec_digits(i as nat)
    } else {
        seq!['-'] + dec_digits((-i) as nat)
    }
}

pub proof fn lemma_digit_char_val(d: int)
    requires
        0 <= d < 10,
    ensures
        is_digit_char(digit_char(d)),
        digit_val(digit_char(d)) == d,
{
}

pub proof fn lemma_dec_digits_are_digits(n: nat)
    ensures
        dec_digits(n).len() >= 1,
        forall|i: int|
            0 <= i < dec_digits(n).len() ==> is_digit_char(#[trigger] dec_digits(n)[i]),
    decreases n,
{
    if n < 10 {
        lemma_digit_char_val(n as int);
    } else {
        lemma_dec_digits_are_digits(n / 10);
        lemma_digit_char_val((n % 10) as int);
    }
}

fn digit_to_char(d: u8) -> (c: char)
    requires
        d < 10,
    ensures
        c == digit_char(d as int),
{
    match d {
        0 => '0',
        1 => '1',
        2 => '2',
        3 => '3',
        4 => '4',
        5 => '5',
        6 => '6',
        7 => '7',
        8 => '8',
        _ => '9',
    }
}

/// Appends the decimal digits of `n` to `out`.
pub fn push_dec_u64(out: &mut Vec<char>, n: u64)
    ensures
        final(out)@ == old(out)@ + dec_digits(n as nat),
    decreases n,
{
    if n < 10 {
        out.push(digit_to_char(n as u8));
    } else {
        push_dec_u64(out, n / 10);
        out.push(digit_to_char((n % 10) as u8));
    }
}

/// Appends the decimal text of `n` (with a `-` sign if negative) to `out`.
pub fn push_dec_i64(out: &mut Vec<char>, n: i64)
    ensures
        final(out)@ == old(out)@ + dec_int(n as int),
{
    if n >= 0 {
        push_dec_u64(out, n as u64);
    } else {
        out.push('-');
        let m: u64 = if n == i64::MIN {
            9223372036854775808u64
        } else {
            (-n) as u64
        };
        assert(m as nat == (-(n as int)) as nat);
        push_dec_u64(out, m);
    }
}

/// True when every character of `s` in `[pos, end)` is a decimal digit.
pub open spec fn all_digits(s: Seq<char>, pos: int, end: int) -> bool {
    forall|i: int| pos <= i < end ==> is_digit_char(#[trigger] s[i])
}

/// The numeric value of the digit run `s[pos..end]`, most significant first.
pub open spec fn digits_val(s: Seq<char>, pos: int, end: int) -> int
    decreases end - pos,
{
    if end <= pos {
        0
    } else {
        digits_val(s, pos, end - 1) * 10 + digit_val(s[end - 1])
    }
}

/// The index just past the longest digit run of `s` starting at `pos`.
pub open spec fn digits_end(s: Seq<char>, pos: int) -> int
    decreases s.len() - pos,
{
    if pos < 0 || pos >= s.len() || !is_digit_char(s[pos]) {
        pos
    } else {
        digits_end(s, pos + 1)
    }
}

pub proof fn lemma_digits_end_bounds(s: Seq<char>, pos: int)
    requires
        0 <= pos <= s.len(),
    ensures
        pos <= digits_end(s, pos) <= s.len(),
        all_digits(s, pos, digits_end(s, pos)),
        digits_end(s, pos) == s.len() || !is_digit_char(s[digits_end(s, pos)]),
    decreases s.len() - pos,
{
    if pos < s.len() && is_digit_char(s[pos]) {
        lemma_digits_end_bounds(s, pos + 1);
    }
}

/// A digit run followed by a non-digit (or the end) determines `digits_end`.
pub proof fn lemma_digits_end_at(s: Seq<char>, pos: int, end: int)
    requires
        0 <= pos <= end <= s.len(),
        all_digits(s, pos, end),
        end == s.len() || !is_digit_char(s[end]),
    ensures
        digits_end(s, pos) == end,
    decreases end - pos,
{
    if pos < end {
        lemma_digits_end_at(s, pos + 1, end);
    }
}

pub proof fn lemma_digits_val_nonneg(s: Seq<char>, pos: int, end: int)
    requires
        all_digits(s, pos, end),
    ensures
        digits_val(s, pos, end) >= 0,
    decreases end - pos,
{
    if end > pos {
        lemma_digits_val_nonneg(s, pos, end - 1);
    }
}

/// Extending a digit run can only increase its value.
pub proof fn lemma_digits_val_mono(s: Seq<char>, pos: int, mid: int, end: int)
    requires
        pos <= mid <= end,
        all_digits(s, pos, end),
    ensures
        digits_val(s, pos, end) >= digits_val(s, pos, mid),
    decreases end - mid,
{
    if end > mid {
        lemma_digits_val_mono(s, pos, mid, end - 1);
        lemma_digits_val_nonneg(s, pos, end - 1);
    }
}

/// What `spec_read_u64` yields: the value and end of the digit run at `pos`,
/// or nothing when no digit stands there or the value exceeds `u64::MAX`.
pub open spec fn spec_read_u64(s: Seq<char>, pos: int) -> Option<(int, int)> {
    let end = digits_end(s, pos);
    if end == pos {
        None
    } else if digits_val(s, pos, end) > u64::MAX {
        None
    } else {
        Some((digits_val(s, pos, end), end))
    }
}

pub fn char_is_digit(c: char) -> (b: bool)
    ensures
        b == is_digit_char(c),
{
    '0' <= c && c <= '9'
}

/// Reads the digit run of `s` starting at `pos` as a `u64`.
pub fn read_u64(s: &Vec<char>, pos: usize) -> (r: Option<(u64, usize)>)
    requires
        pos <= s@.len(),
    ensures
        match r {
            Some(p) => spec_read_u64(s@, pos as int) == Some((p.0 as int, p.1 as int)),
            None => spec_read_u64(s@, pos as int) is None,
        },
{
    proof {
        lemma_digits_end_bounds(s@, pos as int);
    }
    let ghost end = digits_end(s@, pos as int);
    let mut i: usize = pos;
    let mut acc: u64 = 0;
    while i < s.len() && char_is_digit(s[i])
        invariant
            pos <= i <= s@.len(),
            i <= end <= s@.len(),
            end == digits_end(s@, pos as int),
            all_digits(s@, pos as int, end),
            end == s@.len() || !is_digit_char(s@[end]),
            i < end ==> is_digit_char(s@[i as int]),
            i == end || all_digits(s@, i as int, end),
            acc as int == digits_val(s@, pos as int, i as int),
        decreases s@.len() - i,
    {
        proof {
            lemma_digits_end_at(s@, pos as int, end);
        }
        assert(i < end) by {
            if i >= end {
                assert(is_digit_char(s@[end]));
            }
        }
        let c = s[i];
        let d: u64 = (c as u32 as u64) - 48;
        assert(d as int == digit_val(s@[i as int]));
        assert(d < 10);
        if acc > (u64::MAX - d) / 10 {
            // The run's full value can only be larger still.
            proof {
                assert(acc * 10 + d > u64::MAX) by (nonlinear_arith)
                    requires
                        acc > (u64::MAX - d) / 10,
                        d < 10,
                {}
                assert(digits_val(s@, pos as int, i + 1) == acc * 10 + d);
                lemma_digits_val_mono(s@, pos as int, i + 1, end);
            }
            return None;
        }
        assert(acc * 10 + d <= u64::MAX) by (nonlinear_arith)
            requires
                acc <= (u64::MAX - d) / 10,
                d < 10,
        {}
        acc = acc * 10 + d;
        i = i + 1;
    }
    assert(i == end) by {
        if i < end {
            assert(is_digit_char(s@[i as int]));
        }
    }
    if i == pos {
        None
    } else {
        Some((acc, i))
    }
}

/// The value of a digit run that spells `dec_digits(n)` is `n`.
pub proof fn lemma_val_of_encoded(s: Seq<char>, pos: int, n: nat)
    requires
        0 <= pos,
        pos + dec_digits(n).len() <= s.len(),
        s.subrange(pos, pos + dec_digits(n).len()) == dec_digits(n),
    ensures
        digits_val(s, pos, pos + dec_digits(n).len()) == n,
        all_digits(s, pos, pos + dec_digits(n).len()),
    decreases n,
{
    lemma_dec_digits_are_digits(n);
    let k = dec_digits(n).len() as int;
    assert forall|i: int| pos <= i < pos + k implies is_digit_char(#[trigger] s[i]) by {
        assert(s[i] == dec_digits(n)[i - pos]);
    }
    if n < 10 {
        assert(s[pos] == dec_digits(n)[0]);
        lemma_digit_char_val(n as int);
        assert(digits_val(s, pos, pos) == 0);
        assert(digits_val(s, pos, pos + 1) == digits_val(s, pos, pos) * 10 + digit_val(s[pos]));
        assert(digits_val(s, pos, pos + 1) == n);
    } else {
        let m = n / 10;
        let km = dec_digits(m).len() as int;
        assert(dec_digits(n) == dec_digits(m).push(digit_char((n % 10) as int)));
        assert(k == km + 1);
        assert(s.subrange(pos, pos + km) == dec_digits(m)) by {
            assert forall|i: int| 0 <= i < km implies s.subrange(pos, pos + km)[i]
                == dec_digits(m)[i] by {
                assert(s[pos + i] == dec_digits(n)[i]);
            }
            assert(s.subrange(pos, pos + km) =~= dec_digits(m));
        }
        lemma_val_of_encoded(s, pos, m);
        assert(s[pos + k - 1] == dec_digits(n)[k - 1]);
        lemma_digit_char_val((n % 10) as int);
        assert(digits_val(s, pos, pos + k) == digits_val(s, pos, pos + km) * 10 + (n % 10));
        assert(m * 10 + n % 10 == n) by (nonlinear_arith)
            requires
                m == n / 10,
        {}
    }
}

/// Reading at the start of `dec_digits(n)` followed by a non-digit yields `n`.
pub proof fn lemma_read_encoded(s: Seq<char>, pos: int, n: nat)
    requires
        0 <= n <= u64::MAX,
        0 <= pos,
        pos + dec_digits(n).len() <= s.len(),
        s.subrange(pos, pos + dec_digits(n).len()) == dec_digits(n),
        pos + dec_digits(n).len() == s.len()
            || !is_digit_char(s[pos + dec_digits(n).len()]),
    ensures
        spec_read_u64(s, pos) == Some((n as int, pos + dec_digits(n).len())),
{
    let k = dec_digits(n).len() as int;
    lemma_val_of_encoded(s, pos, n);
    lemma_digits_end_at(s, pos, pos + k);
    lemma_dec_digits_are_digits(n);
}

/// What a whole string denotes as a signed 64-bit integer: an optional sign,
/// then one or more digits spanning the rest, the value within `i64`'s range.
pub open spec fn spec_parse_i64(s: Seq<char>) -> Option<i64> {
    let neg = s.len() > 0 && s[0] == '-';
    let start: int = if s.len() > 0 && (s[0] == '-' || s[0] == '+') {
        1
    } else {
        0
    };
    if s.len() <= start || !all_digits(s, start, s.len() as int) {
        None
    } else {
        let v = digits_val(s, start, s.len() as int);
        if neg {
            if v > 9223372036854775808 {
                None
            } else {
                Some((-v) as i64)
            }
        } else {
            if v > i64::MAX {
                None
            } else {
                Some(v as i64)
            }
        }
    }
}

/// Parses a whole character sequence as a signed 64-bit integer.
pub fn parse_i64_chars(s: &Vec<char>) -> (r: Option<i64>)
    ensures
        r == spec_parse_i64(s@),
{
    let len = s.len();
    let mut neg = false;
    let mut start: usize = 0;
    if len > 0 && (s[0] == '-' || s[0] == '+') {
        neg = s[0] == '-';
        start = 1;
    }
    if len <= start {
        return None;
    }
    proof {
        lemma_digits_end_bounds(s@, start as int);
    }
    match read_u64(s, start) {
        None => {
            // Either no digit stands at `start`, or the run's value
            // exceeds `u64::MAX` and so exceeds both signed bounds.
            proof {
                let end = digits_end(s@, start as int);
                if end == start {
                    assert(!all_digits(s@, start as int, s@.len() as int)) by {
                        assert(!is_digit_char(s@[start as int]));
                    }
                } else if all_digits(s@, start as int, s@.len() as int) {
                    lemma_digits_end_at(s@, start as int, s@.len() as int);
                }
            }
            None
        },
        Some((v, end)) => {
            if end < len {
                // A non-digit remains: the whole string is not a number.
                proof {
                    assert(!is_digit_char(s@[end as int]));
                }
                None
            } else if neg {
                if v > 9223372036854775808u64 {
                    None
                } else if v == 9223372036854775808u64 {
                    Some(i64::MIN)
                } else {
                    Some(-(v as i64))
                }
            } else {
                if v > i64::MAX as u64 {
                    None
                } else {
                    Some(v as i64)
                }
            }
        },
    }
}

} // verus!
