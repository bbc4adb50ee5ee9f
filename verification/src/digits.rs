//! Decimal text: parsing the numbers that arrive as strings (ports,
//! catalog identifiers) and rendering numbers into strings (the port of a
//! connection string), each against one arithmetic model.

use vstd::prelude::*;
use vstd::string::StrSliceExecFns;
use vstd::string::StringExecFns;

verus! {

/// Whether `c` is a decimal digit.
pub open spec fn is_dec_digit(c: char) -> bool {
    48 <= c as int <= 57
}

/// The value of one decimal digit.
pub open spec fn digit_val(c: char) -> int {
    c as int - 48
}

/// Whether every character of `s` is a decimal digit.
pub open spec fn all_dec_digits(s: Seq<char>) -> bool {
    forall|i: int| 0 <= i < s.len() ==> is_dec_digit(#[trigger] s[i])
}

/// The number a digit string denotes, most significant digit first.
pub open spec fn dec_value(s: Seq<char>) -> int
    decreases s.len(),
{
    if s.len() == 0 {
        0
    } else {
        dec_value(s.drop_last()) * 10 + digit_val(s.last())
    }
}

/// A digit string's value never shrinks as digits are appended.
proof fn lemma_dec_value_monotone(s: Seq<char>, i: int, j: int)
    requires
        0 <= i <= j <= s.len(),
        forall|k: int| 0 <= k < j ==> is_dec_digit(#[trigger] s[k]),
    ensures
        dec_value(s.take(i)) <= dec_value(s.take(j)),
        0 <= dec_value(s.take(i)),
    decreases j - i, i,
{
    if i < j {
        lemma_dec_value_monotone(s, i, j - 1);
        assert(s.take(j).drop_last() =~= s.take(j - 1));
        lemma_dec_value_monotone(s, i, i);
    } else if i > 0 {
        assert(s.take(i).drop_last() =~= s.take(i - 1));
        lemma_dec_value_monotone(s, i - 1, i - 1);
    }
}

/// Parses the digits of `s` from position `start` on as one unsigned
/// decimal number of at most `limit`.  Anything else -- an empty digit
/// run, a non-digit, a value beyond `limit` -- is rejected.
fn parse_magnitude(s: &str, start: usize, limit: u64) -> (r: Option<u64>)
    requires
        start <= s@.len(),
    ensures
        ({
            let digits = s@.subrange(start as int, s@.len() as int);
            match r {
                Some(v) => digits.len() > 0 && all_dec_digits(digits) && dec_value(digits)
                    == v as int && v <= limit,
                None => !(digits.len() > 0 && all_dec_digits(digits) && dec_value(digits)
                    <= limit as int),
            }
        }),
{
    let ghost digits = s@.subrange(start as int, s@.len() as int);
    let len = s.unicode_len();
    if start == len {
        return None;
    }
    let mut acc: u128 = 0;
    let mut i: usize = start;
    while i < len
        invariant
            start <= i <= len,
            len == s@.len(),
            digits == s@.subrange(start as int, s@.len() as int),
            forall|k: int| 0 <= k < i - start ==> is_dec_digit(#[trigger] digits[k]),
            acc as int == dec_value(digits.take(i - start)),
            acc <= limit as u128,
        decreases len - i,
    {
        let c = s.get_char(i);
        if !('0' <= c && c <= '9') {
            assert(!is_dec_digit(digits[i - start]));
            return None;
        }
        let d: u128 = (c as u32 - 48) as u128;
        acc = acc * 10 + d;
        proof {
            assert(digits.take(i + 1 - start).drop_last() =~= digits.take(i - start));
            assert(digits.take(i + 1 - start).last() == digits[i - start]);
        }
        if acc > limit as u128 {
            proof {
                if all_dec_digits(digits) {
                    lemma_dec_value_monotone(digits, i + 1 - start, digits.len() as int);
                    assert(digits.take(digits.len() as int) =~= digits);
                }
            }
            return None;
        }
        i += 1;
    }
    proof {
        assert(digits.take(digits.len() as int) =~= digits);
    }
    Some(acc as u64)
}

/// The port number a string denotes, if it is a plain decimal number that
/// fits `u16`.
pub open spec fn port_of(s: Seq<char>) -> Option<u16> {
    if s.len() > 0 && all_dec_digits(s) && dec_value(s) <= u16::MAX as int {
        Some(dec_value(s) as u16)
    } else {
        None
    }
}

/// Parses a port number: plain decimal digits, at most `u16::MAX`.
pub fn parse_port(s: &str) -> (r: Option<u16>)
    ensures
        r == port_of(s@),
{
    proof {
        assert(s@.subrange(0, s@.len() as int) =~= s@);
    }
    match parse_magnitude(s, 0, 65535) {
        Some(v) => Some(v as u16),
        None => None,
    }
}

/// The catalog identifier a string denotes: an optional sign followed by
/// decimal digits, within `i64` range.
pub open spec fn product_id_of(s: Seq<char>) -> Option<i64> {
    if s.len() > 0 && s[0] == '-' {
        let mag = s.subrange(1, s.len() as int);
        if mag.len() > 0 && all_dec_digits(mag) && dec_value(mag) <= 0x8000_0000_0000_0000 {
            Some((0 - dec_value(mag)) as i64)
        } else {
            None
        }
    } else if s.len() > 0 && s[0] == '+' {
        let mag = s.subrange(1, s.len() as int);
        if mag.len() > 0 && all_dec_digits(mag) && dec_value(mag) <= i64::MAX as int {
            Some(dec_value(mag) as i64)
        } else {
            None
        }
    } else if s.len() > 0 && all_dec_digits(s) && dec_value(s) <= i64::MAX as int {
        Some(dec_value(s) as i64)
    } else {
        None
    }
}

/// Parses a catalog identifier out of a request path: an optional sign
/// followed by decimal digits, within `i64` range.  Anything else is
/// rejected rather than guessed at.
pub fn parse_product_id(s: &str) -> (r: Option<i64>)
    ensures
        r == product_id_of(s@),
{
    let len = s.unicode_len();
    if len == 0 {
        return None;
    }
    let first = s.get_char(0);
    if first == '-' {
        match parse_magnitude(s, 1, 0x8000_0000_0000_0000) {
            Some(v) => {
                if v == 0x8000_0000_0000_0000 {
                    Some(i64::MIN)
                } else {
                    Some(-(v as i64))
                }
            }
            None => None,
        }
    } else if first == '+' {
        match parse_magnitude(s, 1, i64::MAX as u64) {
            Some(v) => Some(v as i64),
            None => None,
        }
    } else {
        proof {
            assert(s@.subrange(0, s@.len() as int) =~= s@);
        }
        match parse_magnitude(s, 0, i64::MAX as u64) {
            Some(v) => Some(v as i64),
            None => None,
        }
    }
}

/// The digit character of one decimal digit value.
pub open spec fn digit_char(d: int) -> char {
    if d == 0 {
        '0'
    } else if d == 1 {
        '1'
    } else if d == 2 {
        '2'
    } else if d == 3 {
        '3'
    } else if d == 4 {
        '4'
    } else if d == 5 {
        '5'
    } else if d == 6 {
        '6'
    } else if d == 7 {
        '7'
    } else if d == 8 {
        '8'
    } else {
        '9'
    }
}

/// The decimal text of a non-negative number, most significant digit
/// first, without leading zeros.
pub open spec fn dec_rep(n: int) -> Seq<char>
    recommends
        0 <= n,
    decreases n,
{
    if n < 10 {
        seq![digit_char(n)]
    } else {
        dec_rep(n / 10).push(digit_char(n % 10))
    }
}

/// The one-character string of one decimal digit value.
fn digit_str(d: u64) -> (r: &'static str)
    requires
        d < 10,
    ensures
        r@ == seq![digit_char(d as int)],
{
    if d == 0 {
        proof {
            reveal_strlit("0");
        }
        "0"
    } else if d == 1 {
        proof {
            reveal_strlit("1");
        }
        "1"
    } else if d == 2 {
        proof {
            reveal_strlit("2");
        }
        "2"
    } else if d == 3 {
        proof {
            reveal_strlit("3");
        }
        "3"
    } else if d == 4 {
        proof {
            reveal_strlit("4");
        }
        "4"
    } else if d == 5 {
        proof {
            reveal_strlit("5");
        }
        "5"
    } else if d == 6 {
        proof {
            reveal_strlit("6");
        }
        "6"
    } else if d == 7 {
        proof {
            reveal_strlit("7");
        }
        "7"
    } else if d == 8 {
        proof {
            reveal_strlit("8");
        }
        "8"
    } else {
        proof {
            reveal_strlit("9");
        }
        "9"
    }
}

/// Renders a number as decimal text.
pub fn fmt_u64(n: u64) -> (r: String)
    ensures
        r@ == dec_rep(n as int),
    decreases n,
{
    if n < 10 {
        digit_str(n).to_owned()
    } else {
        let mut s = fmt_u64(n / 10);
        s.append(digit_str(n % 10));
        proof {
            assert(dec_rep(n as int / 10).push(digit_char(n as int % 10)) =~= dec_rep(
                n as int / 10,
            ) + seq![digit_char(n as int % 10)]);
        }
        s
    }
}

} // verus!
