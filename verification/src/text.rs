//! Decimal numbers as text: writing a number out, and reading a count that a
//! request carried as a string.

use vstd::prelude::*;
use vstd::string::*;

verus! {

/// The character that stands for the decimal digit `d`.
pub open spec fn digit_char(d: nat) -> char
    recommends
        d < 10,
{
    if d == 0 {
        '0'
    } else if d == 1 {
        '1'
    } else if d == 2 {
        '2'
    } else if d == 3 {
        '3'
    } else if d == 4 {
        '4'
    } else if d == 5 {
        '5'
    } else if d == 6 {
        '6'
    } else if d == 7 {
        '7'
    } else if d == 8 {
        '8'
    } else {
        '9'
    }
}

/// The decimal numeral of `n`, without sign or leading zeros.
pub open spec fn decimal(n: nat) -> Seq<char>
    decreases n,
{
    if n < 10 {
        seq![digit_char(n)]
    } else {
        decimal(n / 10).push(digit_char(n % 10))
    }
}

fn digit_text(d: u64) -> (text: &'static str)
    requires
        d < 10,
    ensures
        text@ == seq![digit_char(d as nat)],
{
    proof {
        reveal_strlit("0");
        reveal_strlit("1");
        reveal_strlit("2");
        reveal_strlit("3");
        reveal_strlit("4");
        reveal_strlit("5");
        reveal_strlit("6");
        reveal_strlit("7");
        reveal_strlit("8");
        reveal_strlit("9");
    }
    let text: &'static str = if d == 0 {
        "0"
    } else if d == 1 {
        "1"
    } else if d == 2 {
        "2"
    } else if d == 3 {
        "3"
    } else if d == 4 {
        "4"
    } else if d == 5 {
        "5"
    } else if d == 6 {
        "6"
    } else if d == 7 {
        "7"
    } else if d == 8 {
        "8"
    } else {
        "9"
    };
    assert(text@ =~= seq![digit_char(d as nat)]);
    text
}

/// Writes `n` in decimal.
pub fn decimal_text(n: u64) -> (text: String)
    ensures
        text@ == decimal(n as nat),
    decreases n,
{
    if n < 10 {
        String::from_str(digit_text(n))
    } else {
        let mut text = decimal_text(n / 10);
        text.append(digit_text(n % 10));
        assert(text@ =~= decimal(n as nat));
        text
    }
}

/// Whether `b` is the byte of a decimal digit.
pub open spec fn is_digit(b: u8) -> bool {
    48 <= b <= 57
}

/// Whether `s` holds decimal digits and nothing else.
pub open spec fn all_digits(s: Seq<u8>) -> bool {
    forall|i: int| 0 <= i < s.len() ==> is_digit(#[trigger] s[i])
}

/// The number that the decimal digits `s` write, most significant first.
pub open spec fn digits_value(s: Seq<u8>) -> nat
    decreases s.len(),
{
    if s.len() == 0 {
        0
    } else {
        digits_value(s.drop_last()) * 10 + (s.last() - 48) as nat
    }
}

/// The integer that `s` writes: an optional `+` or `-`, then at least one
/// decimal digit, and nothing before, between or after; `None` for every other
/// text.
pub open spec fn signed_decimal(s: Seq<u8>) -> Option<int> {
    let signed = s.len() > 0 && (s[0] == 43 || s[0] == 45);
    let digits = if signed {
        s.skip(1)
    } else {
        s
    };
    if digits.len() == 0 || !all_digits(digits) {
        None
    } else if signed && s[0] == 45 {
        Some(-(digits_value(digits) as int))
    } else {
        Some(digits_value(digits) as int)
    }
}

/// What reading `s` as a 32-bit signed integer gives: the integer it writes,
/// where it writes one and that one fits.
pub open spec fn parsed_i32(s: Seq<u8>) -> Option<i32> {
    match signed_decimal(s) {
        Some(v) => if i32::MIN <= v <= i32::MAX {
            Some(v as i32)
        } else {
            None
        },
        None => None,
    }
}

/// A longer run of digits never writes a smaller number than one of its
/// prefixes.
proof fn lemma_digits_value_prefix(s: Seq<u8>, k: int)
    requires
        0 <= k <= s.len(),
    ensures
        digits_value(s.subrange(0, k)) <= digits_value(s),
    decreases s.len(),
{
    if k == s.len() {
        assert(s.subrange(0, k) =~= s);
    } else {
        lemma_digits_value_prefix(s.drop_last(), k);
        assert(s.drop_last().subrange(0, k) =~= s.subrange(0, k));
    }
}

/// Reads `text` as a 32-bit signed integer in decimal.
#[verifier::loop_isolation(false)]
pub fn parse_i32(text: &str) -> (value: Option<i32>)
    ensures
        value == parsed_i32(text.spec_bytes()),
{
    let bytes = text.as_bytes();
    let len: usize = bytes.len();
    let signed: bool = len > 0 && (bytes[0] == 43 || bytes[0] == 45);
    let negative: bool = signed && bytes[0] == 45;
    let start: usize = if signed {
        1
    } else {
        0
    };
    if start == len {
        return None;
    }
    let ghost digits = bytes@.skip(start as int);
    assert(!signed ==> digits =~= bytes@);
    let mut magnitude: u64 = 0;
    let mut at: usize = start;
    while at < len
        invariant
            start <= at <= len,
            len == bytes@.len(),
            digits == bytes@.skip(start as int),
            all_digits(digits.subrange(0, at - start)),
            magnitude == digits_value(digits.subrange(0, at - start)),
            magnitude <= 2147483648,
        decreases len - at,
    {
        let b: u8 = bytes[at];
        assert(digits[at - start] == b);
        if b < 48 || b > 57 {
            return None;
        }
        let next: u64 = magnitude * 10 + (b - 48) as u64;
        proof {
            let longer = digits.subrange(0, at - start + 1);
            assert(longer.drop_last() =~= digits.subrange(0, at - start));
            assert(longer.last() == b);
            assert(next == digits_value(longer));
        }
        if next > 2147483648 {
            proof {
                lemma_digits_value_prefix(digits, at - start + 1);
            }
            return None;
        }
        magnitude = next;
        at = at + 1;
    }
    assert(digits.subrange(0, at - start) =~= digits);
    if negative {
        let value: i64 = 0 - (magnitude as i64);
        Some(value as i32)
    } else if magnitude == 2147483648 {
        None
    } else {
        Some(magnitude as i32)
    }
}

/// How many items a count parameter asks for: the integer it writes, or zero
/// where the parameter is missing, writes no 32-bit integer, or writes a
/// negative one.
pub open spec fn requested(param: Option<Seq<u8>>) -> nat {
    match param {
        Some(s) => match parsed_i32(s) {
            Some(v) => if v > 0 {
                v as nat
            } else {
                0
            },
            None => 0,
        },
        None => 0,
    }
}

/// A count parameter that is missing, or that writes no 32-bit integer, or
/// writes one that is not positive, asks for nothing.
pub proof fn lemma_unreadable_count_asks_nothing(param: Option<Seq<u8>>)
    requires
        match param {
            Some(s) => match parsed_i32(s) {
                Some(v) => v <= 0,
                None => true,
            },
            None => true,
        },
    ensures
        requested(param) == 0,
{
}

/// The bytes of an optional parameter.
pub open spec fn param_bytes(param: Option<&str>) -> Option<Seq<u8>> {
    match param {
        Some(s) => Some(s.spec_bytes()),
        None => None,
    }
}

/// The count that a request asks for. A missing or malformed parameter asks for
/// nothing.
pub fn requested_count(param: Option<&str>) -> (count: u32)
    ensures
        count == requested(param_bytes(param)),
{
    match param {
        Some(text) => match parse_i32(text) {
            Some(v) => if v > 0 {
                v as u32
            } else {
                0
            },
            None => 0,
        },
        None => 0,
    }
}

} // verus!
