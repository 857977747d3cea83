//! Decimal notation of integers.

use crate::text::{chars_of, digit, is_digit};
use vstd::prelude::*;
use vstd::string::*;

verus! {

/// The character of one decimal digit.
pub open spec fn digit_char(d: nat) -> char {
    (('0' as u32) + d) as char
}

/// The decimal notation of a natural number.
pub open spec fn dec(n: nat) -> Seq<char>
    decreases n,
{
    if n < 10 {
        seq![digit_char(n)]
    } else {
        dec(n / 10).push(digit_char(n % 10))
    }
}

/// The value of a run of digits.
pub open spec fn digits_value(s: Seq<char>) -> nat
    decreases s.len(),
{
    if s.len() == 0 {
        0
    } else {
        (digits_value(s.drop_last()) * 10 + (s.last() as u32 - '0' as u32)) as nat
    }
}

/// A non-empty run of digits.
pub open spec fn all_digits(s: Seq<char>) -> bool {
    s.len() > 0 && forall|i: int| 0 <= i < s.len() ==> is_digit(#[trigger] s[i])
}

/// The unsigned 64-bit number that a text denotes: digits, with an optional
/// plus sign, in range.
pub open spec fn parsed_u64(s: Seq<char>) -> Option<u64> {
    let d = if s.len() > 0 && s[0] == '+' {
        s.drop_first()
    } else {
        s
    };
    if all_digits(d) && digits_value(d) <= u64::MAX {
        Some(digits_value(d) as u64)
    } else {
        None
    }
}

/// The signed 64-bit number that a text denotes: digits, with an optional
/// sign, in range.
pub open spec fn parsed_i64(s: Seq<char>) -> Option<i64> {
    let neg = s.len() > 0 && s[0] == '-';
    let d = if s.len() > 0 && (s[0] == '+' || s[0] == '-') {
        s.drop_first()
    } else {
        s
    };
    let v = if neg {
        -(digits_value(d) as int)
    } else {
        digits_value(d) as int
    };
    if all_digits(d) && i64::MIN <= v <= i64::MAX {
        Some(v as i64)
    } else {
        None
    }
}

fn digit_of(d: u64) -> (c: char)
    requires
        d < 10,
    ensures
        c == digit_char(d as nat),
{
    match d {
        0 => '0',
        1 => '1',
        2 => '2',
        3 => '3',
        4 => '4',
        5 => '5',
        6 => '6',
        7 => '7',
        8 => '8',
        _ => '9',
    }
}

/// The decimal notation of an unsigned number.
pub fn u64_text(n: u64) -> (s: String)
    ensures
        s@ == dec(n as nat),
    decreases n,
{
    if n < 10 {
        let mut s = String::new();
        s.push(digit_of(n));
        assert(s@ =~= dec(n as nat));
        s
    } else {
        let mut s = u64_text(n / 10);
        s.push(digit_of(n % 10));
        s
    }
}

/// The decimal notation of a large unsigned number.
pub fn u128_text(n: u128) -> (s: String)
    ensures
        s@ == dec(n as nat),
    decreases n,
{
    if n < 10 {
        u64_text(n as u64)
    } else {
        let mut s = u128_text(n / 10);
        s.push(digit_of((n % 10) as u64));
        s
    }
}

/// The character of one hexadecimal digit, in lower case.
pub open spec fn hex_char(d: nat) -> char {
    if d < 10 {
        digit_char(d)
    } else {
        (('a' as u32) + (d - 10)) as char
    }
}

/// The hexadecimal notation of a natural number, in lower case.
pub open spec fn hex(n: nat) -> Seq<char>
    decreases n,
{
    if n < 16 {
        seq![hex_char(n)]
    } else {
        hex(n / 16).push(hex_char(n % 16))
    }
}

fn hex_digit(d: u64) -> (c: char)
    requires
        d < 16,
    ensures
        c == hex_char(d as nat),
{
    match d {
        10 => 'a',
        11 => 'b',
        12 => 'c',
        13 => 'd',
        14 => 'e',
        15 => 'f',
        _ => digit_of(d),
    }
}

/// The hexadecimal notation of a large unsigned number, in lower case.
pub fn hex_text(n: u128) -> (s: String)
    ensures
        s@ == hex(n as nat),
    decreases n,
{
    if n < 16 {
        let mut s = String::new();
        s.push(hex_digit(n as u64));
        assert(s@ =~= hex(n as nat));
        s
    } else {
        let mut s = hex_text(n / 16);
        s.push(hex_digit((n % 16) as u64));
        s
    }
}

/// The decimal notation of a size.
pub fn usize_text(n: usize) -> (s: String)
    ensures
        s@ == dec(n as nat),
{
    u64_text(n as u64)
}

/// The value of `cs[from..]` read as digits, if it is a non-empty run of
/// digits and fits.
fn parse_digits(cs: &[char], from: usize) -> (r: Option<u64>)
    requires
        from <= cs@.len(),
    ensures
        ({
            let d = cs@.skip(from as int);
            match r {
                Some(v) => all_digits(d) && v == digits_value(d),
                None => !all_digits(d) || digits_value(d) > u64::MAX,
            }
        }),
{
    let ghost d = cs@.skip(from as int);
    if from == cs.len() {
        return None;
    }
    let mut v: u64 = 0;
    let mut over = false;
    let mut i: usize = from;
    assert(d.take(0) =~= Seq::<char>::empty());
    while i < cs.len()
        invariant
            d == cs@.skip(from as int),
            from <= i <= cs@.len(),
            forall|k: int| 0 <= k < i - from ==> is_digit(#[trigger] d[k]),
            !over ==> v == digits_value(d.take(i - from)),
            over ==> digits_value(d.take(i - from)) > u64::MAX,
        decreases cs@.len() - i,
    {
        let c = cs[i];
        if !digit(c) {
            assert(d[i - from] == c);
            return None;
        }
        let add: u64 = (c as u32 - '0' as u32) as u64;
        proof {
            let t = d.take(i - from + 1);
            assert(t.drop_last() =~= d.take(i - from));
            assert(t.last() == c);
        }
        if !over {
            match v.checked_mul(10) {
                Some(m) => match m.checked_add(add) {
                    Some(x) => {
                        v = x;
                    },
                    None => {
                        over = true;
                    },
                },
                None => {
                    over = true;
                },
            }
        }
        i = i + 1;
    }
    assert(d.take(i - from) =~= d);
    if over {
        None
    } else {
        Some(v)
    }
}

/// Reads an unsigned 64-bit number.
pub fn parse_u64(s: &str) -> (r: Option<u64>)
    ensures
        r == parsed_u64(s@),
{
    let cs = chars_of(s);
    let from: usize = if cs.len() > 0 && cs[0] == '+' {
        1
    } else {
        0
    };
    proof {
        assert(cs@.skip(0) =~= cs@);
        if cs@.len() > 0 {
            assert(cs@.skip(1) =~= cs@.drop_first());
        }
    }
    parse_digits(cs.as_slice(), from)
}

/// Reads a signed 64-bit number.
pub fn parse_i64(s: &str) -> (r: Option<i64>)
    ensures
        r == parsed_i64(s@),
{
    let cs = chars_of(s);
    let neg = cs.len() > 0 && cs[0] == '-';
    let from: usize = if cs.len() > 0 && (cs[0] == '+' || cs[0] == '-') {
        1
    } else {
        0
    };
    proof {
        assert(cs@.skip(0) =~= cs@);
        if cs@.len() > 0 {
            assert(cs@.skip(1) =~= cs@.drop_first());
        }
    }
    match parse_digits(cs.as_slice(), from) {
        Some(v) => {
            if neg {
                if v == 0x8000_0000_0000_0000 {
                    Some(i64::MIN)
                } else if v < 0x8000_0000_0000_0000 {
                    Some(-(v as i64))
                } else {
                    None
                }
            } else if v <= i64::MAX as u64 {
                Some(v as i64)
            } else {
                None
            }
        },
        None => None,
    }
}

/// The notation of a number is a run of digits with that value.
pub proof fn lemma_dec(n: nat)
    ensures
        all_digits(dec(n)),
        digits_value(dec(n)) == n,
        dec(n)[0] != '+',
        dec(n)[0] != '-',
    decreases n,
{
    reveal_with_fuel(digits_value, 2);
    if n < 10 {
        assert(dec(n).drop_last() =~= Seq::<char>::empty());
        assert(dec(n).last() == digit_char(n));
    } else {
        lemma_dec(n / 10);
        assert(dec(n).drop_last() =~= dec(n / 10));
        assert(dec(n).last() == digit_char(n % 10));
        assert forall|i: int| 0 <= i < dec(n).len() implies is_digit(#[trigger] dec(n)[i]) by {
            if i < dec(n / 10).len() {
                assert(dec(n)[i] == dec(n / 10)[i]);
            }
        }
    }
}

/// Reading the notation of a number gives back the number.
pub proof fn law_decimal_round_trip(n: u64)
    ensures
        parsed_u64(dec(n as nat)) == Some(n),
{
    lemma_dec(n as nat);
}

/// Different numbers have different notations.
pub proof fn law_decimal_is_injective(a: nat, b: nat)
    requires
        dec(a) == dec(b),
    ensures
        a == b,
{
    lemma_dec(a);
    lemma_dec(b);
}

/// A number is written with the digits of its tens before its last digit, and
/// without leading zeros; in hexadecimal likewise by sixteens.
pub proof fn law_digits_stand_in_order(n: nat, d: nat)
    requires
        d < 10,
    ensures
        d == 0 ==> dec(d) == seq!['0'],
        d == 9 ==> dec(d) == seq!['9'],
        dec(d).len() == 1 && dec(d)[0] as u32 == '0' as u32 + d,
        n > 0 ==> dec(10 * n + d) == dec(n) + dec(d),
        n > 0 ==> dec(n)[0] != '0',
        hex(d) == dec(d),
        n > 0 ==> hex(16 * n + d) == hex(n) + dec(d),
        hex(10) == seq!['a'] && hex(15) == seq!['f'],
{
    assert((10 * n + d) / 10 == n && (10 * n + d) % 10 == d);
    assert((16 * n + d) / 16 == n && (16 * n + d) % 16 == d);
    assert(hex(d) =~= dec(d));
    if n > 0 {
        assert(dec(10 * n + d) =~= dec(n) + dec(d));
        assert(hex(16 * n + d) =~= hex(n) + dec(d));
        lemma_no_leading_zero(n);
    }
}

proof fn lemma_no_leading_zero(n: nat)
    requires
        n > 0,
    ensures
        dec(n).len() > 0,
        dec(n)[0] != '0',
    decreases n,
{
    if n >= 10 {
        lemma_no_leading_zero(n / 10);
        assert(dec(n)[0] == dec(n / 10)[0]);
    }
}

/// Signed numbers are read with their sign; texts that are no number, or one out of
/// range, are not read.
pub proof fn law_signed_numbers_are_read(n: nat, s: Seq<char>)
    ensures
        n <= i64::MAX ==> parsed_i64(dec(n)) == Some(n as i64),
        n <= i64::MAX ==> parsed_i64(seq!['-'] + dec(n)) == Some((-(n as int)) as i64),
        n > 0x8000_0000_0000_0000 ==> parsed_i64(dec(n)) is None && parsed_i64(
            seq!['-'] + dec(n),
        ) is None,
        n > u64::MAX ==> parsed_u64(dec(n)) is None,
        n <= u64::MAX ==> parsed_u64(seq!['+'] + dec(n)) == Some(n as u64),
        parsed_u64(seq!['-'] + s) is None,
        parsed_u64(Seq::empty()) is None && parsed_i64(Seq::empty()) is None,
{
    lemma_dec(n);
    let m = seq!['-'] + dec(n);
    assert(m.drop_first() =~= dec(n));
    let p = seq!['+'] + dec(n);
    assert(p.drop_first() =~= dec(n));
    let t = seq!['-'] + s;
    assert(t[0] == '-');
    assert(!is_digit('-'));
    assert(!all_digits(t)) by {
        assert(!is_digit(t[0]));
    }
}

} // verus!
