//! Numbers as text: decimal and hexadecimal digits, parsing, padding.

use vstd::prelude::*;
use crate::text::{cat2, chars_of};

verus! {

/// The decimal digit `d`.
pub open spec fn digit(d: int) -> char {
    (('0' as u32) + d) as char
}

/// A natural number in decimal.
pub open spec fn dec_nat(n: nat) -> Seq<char>
    decreases n,
{
    if n < 10 {
        seq![digit(n as int)]
    } else {
        dec_nat(n / 10).push(digit((n % 10) as int))
    }
}

/// An integer in decimal, with a minus sign where it is negative.
pub open spec fn dec(i: int) -> Seq<char> {
    if i < 0 {
        seq!['-'] + dec_nat((-i) as nat)
    } else {
        dec_nat(i as nat)
    }
}

fn digit_char(d: u8) -> (c: char)
    requires
        d < 10,
    ensures
        c == digit(d as int),
{
    (48u8 + d) as char
}

/// `n` in decimal.
pub fn dec_u64(n: u64) -> (s: String)
    ensures
        s@ == dec(n as int),
    decreases n,
{
    let d: u8 = (n % 10) as u8;
    if n < 10 {
        let mut s = String::new();
        s.push(digit_char(d));
        assert(s@ == dec(n as int));
        s
    } else {
        let mut s = dec_u64(n / 10);
        s.push(digit_char(d));
        s
    }
}

/// `n` in decimal.
pub fn dec_usize(n: usize) -> (s: String)
    ensures
        s@ == dec(n as int),
{
    dec_u64(n as u64)
}

/// `i` in decimal.
pub fn dec_i64(i: i64) -> (s: String)
    ensures
        s@ == dec(i as int),
{
    if i >= 0 {
        dec_u64(i as u64)
    } else {
        let below: i64 = i + 1;
        let size: u64 = (-below) as u64 + 1;
        let s = cat2("-", dec_u64(size).as_str());
        proof {
            reveal_strlit("-");
            assert("-"@ == seq!['-']);
        }
        s
    }
}

// ---- reading ----

/// `c` is a decimal digit.
pub open spec fn is_digit(c: char) -> bool {
    '0' <= c <= '9'
}

/// `s` holds decimal digits only, and at least one.
pub open spec fn all_digits(s: Seq<char>) -> bool {
    s.len() > 0 && forall|i: int| 0 <= i < s.len() ==> is_digit(#[trigger] s[i])
}

/// The number that the digits of `s` spell.
pub open spec fn digits_value(s: Seq<char>) -> nat
    decreases s.len(),
{
    if s.len() == 0 {
        0
    } else {
        digits_value(s.drop_last()) * 10 + (s.last() as u32 - '0' as u32) as nat
    }
}

/// The integer that `s` spells: digits behind an optional sign, a minus sign only where
/// negative numbers are allowed, and the value between `lo` and `hi`.
pub open spec fn int_in(s: Seq<char>, lo: int, hi: int) -> Option<int> {
    let minus = s.len() > 0 && s[0] == '-' && lo < 0;
    let plus = s.len() > 0 && s[0] == '+';
    let body = if minus || plus { s.skip(1) } else { s };
    let value = if minus { -digits_value(body) } else { digits_value(body) as int };
    if all_digits(body) && lo <= value <= hi {
        Some(value)
    } else {
        None
    }
}

/// The value of the digits from `from` on; `None` where one is no digit or the value
/// is beyond 64 bits.
fn read_digits(v: &Vec<char>, from: usize) -> (r: Option<u64>)
    requires
        from <= v.len(),
    ensures
        match r {
            Some(n) => all_digits(v@.skip(from as int)) && n == digits_value(v@.skip(from as int)),
            None => !all_digits(v@.skip(from as int)) || digits_value(v@.skip(from as int)) > u64::MAX,
        },
{
    let ghost body = v@.skip(from as int);
    if from == v.len() {
        return None;
    }
    let mut acc: Option<u64> = Some(0);
    for i in from..v.len()
        invariant
            from <= i <= v.len(),
            body == v@.skip(from as int),
            forall|j: int| 0 <= j < i - from ==> is_digit(#[trigger] body[j]),
            match acc {
                Some(n) => n == digits_value(body.take(i - from)),
                None => digits_value(body.take(i - from)) > u64::MAX,
            },
    {
        let c = v[i];
        proof {
            assert(body[i - from] == c);
            assert(body.take(i + 1 - from).drop_last() == body.take(i - from));
        }
        if c < '0' || c > '9' {
            return None;
        }
        let d: u64 = (c as u32 - '0' as u32) as u64;
        acc = match acc {
            Some(n) => {
                if n > (u64::MAX - d) / 10 {
                    None
                } else {
                    Some(n * 10 + d)
                }
            },
            None => None,
        };
    }
    assert(body.take(v.len() - from) == body);
    acc
}

/// Reads a signed integer.
pub fn parse_i64(s: &str) -> (r: Option<i64>)
    ensures
        match r {
            Some(n) => int_in(s@, i64::MIN as int, i64::MAX as int) == Some(n as int),
            None => int_in(s@, i64::MIN as int, i64::MAX as int) is None,
        },
{
    let v = chars_of(s);
    proof {
        assert(v@.skip(0) == v@);
    }
    if v.len() > 0 && v[0] == '-' {
        match read_digits(&v, 1) {
            Some(n) => {
                if n <= 0x7fff_ffff_ffff_ffff {
                    Some(-(n as i64))
                } else if n == 0x8000_0000_0000_0000 {
                    Some(i64::MIN)
                } else {
                    None
                }
            },
            None => None,
        }
    } else {
        let from: usize = if v.len() > 0 && v[0] == '+' { 1 } else { 0 };
        match read_digits(&v, from) {
            Some(n) => if n <= 0x7fff_ffff_ffff_ffff {
                Some(n as i64)
            } else {
                None
            },
            None => None,
        }
    }
}

/// Reads a signed 32-bit integer.
pub fn parse_i32(s: &str) -> (r: Option<i32>)
    ensures
        match r {
            Some(n) => int_in(s@, i32::MIN as int, i32::MAX as int) == Some(n as int),
            None => int_in(s@, i32::MIN as int, i32::MAX as int) is None,
        },
{
    match parse_i64(s) {
        Some(n) => if -0x8000_0000 <= n && n <= 0x7fff_ffff {
            Some(n as i32)
        } else {
            None
        },
        None => None,
    }
}

/// Reads an unsigned integer.
pub fn parse_u64(s: &str) -> (r: Option<u64>)
    ensures
        match r {
            Some(n) => int_in(s@, 0, u64::MAX as int) == Some(n as int),
            None => int_in(s@, 0, u64::MAX as int) is None,
        },
{
    let v = chars_of(s);
    proof {
        assert(v@.skip(0) == v@);
    }
    let from: usize = if v.len() > 0 && v[0] == '+' { 1 } else { 0 };
    read_digits(&v, from)
}

/// Reads an unsigned 32-bit integer.
pub fn parse_u32(s: &str) -> (r: Option<u32>)
    ensures
        match r {
            Some(n) => int_in(s@, 0, u32::MAX as int) == Some(n as int),
            None => int_in(s@, 0, u32::MAX as int) is None,
        },
{
    match parse_u64(s) {
        Some(n) => if n <= 0xffff_ffff {
            Some(n as u32)
        } else {
            None
        },
        None => None,
    }
}

/// Reads an index or a count.
pub fn parse_usize(s: &str) -> (r: Option<usize>)
    ensures
        match r {
            Some(n) => int_in(s@, 0, usize::MAX as int) == Some(n as int),
            None => int_in(s@, 0, usize::MAX as int) is None,
        },
{
    match parse_u64(s) {
        Some(n) => if n <= usize::MAX as u64 {
            Some(n as usize)
        } else {
            None
        },
        None => None,
    }
}

/// A number written in decimal reads back as the same number.
pub proof fn law_dec_reads_back(i: int, lo: int, hi: int)
    requires
        lo <= i <= hi,
        lo <= 0,
    ensures
        int_in(dec(i), lo, hi) == Some(i),
{
    let n = if i < 0 { (-i) as nat } else { i as nat };
    lemma_dec_nat(n);
    if i < 0 {
        assert(dec(i).skip(1) == dec_nat(n));
    } else {
        assert(is_digit(dec(i)[0]));
    }
}

/// A natural number in decimal holds digits only, and they spell it.
pub proof fn lemma_dec_nat(n: nat)
    ensures
        all_digits(dec_nat(n)),
        digits_value(dec_nat(n)) == n,
    decreases n,
{
    if n < 10 {
        reveal_with_fuel(digits_value, 2);
        assert(dec_nat(n).drop_last() == Seq::<char>::empty());
        assert(dec_nat(n).last() == digit(n as int));
    } else {
        lemma_dec_nat(n / 10);
        assert(dec_nat(n).drop_last() == dec_nat(n / 10));
    }
}

// ---- padding ----

/// `s`, moved right by spaces until it is `width` characters wide.
pub open spec fn pad(s: Seq<char>, width: int) -> Seq<char> {
    if s.len() >= width {
        s
    } else {
        Seq::new((width - s.len()) as nat, |i: int| ' ') + s
    }
}

/// A number from 0 to 99 as two digits.
pub open spec fn two_digits(n: int) -> Seq<char> {
    if n < 10 {
        seq!['0'] + dec(n)
    } else {
        dec(n)
    }
}

/// `s`, moved right by spaces until it is `width` characters wide.
pub fn pad_left(s: &str, width: usize) -> (r: String)
    ensures
        r@ == pad(s@, width as int),
{
    let v = chars_of(s);
    let mut r = String::new();
    let n: usize = v.len();
    let gap: usize = if n < width { width - n } else { 0 };
    for i in 0..gap
        invariant
            r@ == Seq::new(i as nat, |i: int| ' '),
    {
        r.push(' ');
        assert(r@ == Seq::new((i + 1) as nat, |i: int| ' '));
    }
    let out = cat2(r.as_str(), s);
    proof {
        if n >= width {
            assert(out@ == s@);
        }
    }
    out
}

/// A number as at least two digits.
pub fn dec2(n: u64) -> (r: String)
    ensures
        r@ == two_digits(n as int),
{
    if n < 10 {
        proof {
            reveal_strlit("0");
            assert("0"@ == seq!['0']);
        }
        cat2("0", dec_u64(n).as_str())
    } else {
        dec_u64(n)
    }
}

// ---- hexadecimal ----

/// The upper-case hexadecimal digit `d`.
pub open spec fn hex_upper(d: int) -> char {
    if d < 10 {
        digit(d)
    } else {
        (('A' as u32) + (d - 10)) as char
    }
}

/// The lower-case hexadecimal digit `d`.
pub open spec fn hex_lower(d: int) -> char {
    if d < 10 {
        digit(d)
    } else {
        (('a' as u32) + (d - 10)) as char
    }
}

/// The upper-case hexadecimal digit `d`.
pub fn hex_upper_char(d: u8) -> (c: char)
    requires
        d < 16,
    ensures
        c == hex_upper(d as int),
{
    if d < 10 {
        digit_char(d)
    } else {
        (65u8 + (d - 10)) as char
    }
}

fn hex_lower_char(d: u8) -> (c: char)
    requires
        d < 16,
    ensures
        c == hex_lower(d as int),
{
    if d < 10 {
        digit_char(d)
    } else {
        (97u8 + (d - 10)) as char
    }
}

/// The last `width` hexadecimal digits of `n`, lower case.
pub open spec fn hex_digits(n: int, width: nat) -> Seq<char>
    decreases width,
{
    if width == 0 {
        Seq::empty()
    } else {
        hex_digits(n / 16, (width - 1) as nat).push(hex_lower(n % 16))
    }
}

/// The last `width` hexadecimal digits of `n`, lower case.
pub fn hex_of(n: u64, width: u32) -> (r: String)
    ensures
        r@ == hex_digits(n as int, width as nat),
    decreases width,
{
    if width == 0 {
        String::new()
    } else {
        let mut r = hex_of(n / 16, width - 1);
        r.push(hex_lower_char((n % 16) as u8));
        r
    }
}

// ---- laws ----

/// A number is written digit by digit, the last digit last; one of a single digit is that digit.
pub proof fn law_decimal_digits(n: int, d: int)
    requires
        n >= 0,
        0 <= d <= 9,
    ensures
        n > 0 ==> dec(10 * n + d) == dec(n).push((48 + d) as char),
        dec(d) == seq![(48 + d) as char],
        n > 0 ==> dec(-n) == seq!['-'] + dec(n),
{
    if n > 0 {
        let m = (10 * n + d) as nat;
        assert(m / 10 == n && m % 10 == d);
    }
}

/// What is padded keeps its text at the end, and is as wide as was asked for, or wider.
pub proof fn law_padded(s: Seq<char>, width: int)
    ensures
        pad(s, width).len() == if s.len() >= width {
            s.len() as int
        } else {
            width
        },
        pad(s, width).skip(pad(s, width).len() - s.len()) == s,
        forall|i: int| 0 <= i < pad(s, width).len() - s.len() ==> #[trigger] pad(s, width)[i] == ' ',
{
    assert(pad(s, width).skip(pad(s, width).len() - s.len()) =~= s);
}

/// A number below a hundred is written with two digits.
pub proof fn law_two_digits(a: int, b: int)
    requires
        0 <= a <= 9,
        0 <= b <= 9,
    ensures
        two_digits(10 * a + b) == seq![(48 + a) as char, (48 + b) as char],
{
    if a > 0 {
        law_decimal_digits(a, b);
        law_decimal_digits(0, a);
        assert(two_digits(10 * a + b) =~= seq![(48 + a) as char, (48 + b) as char]);
    } else {
        law_decimal_digits(0, b);
        assert(two_digits(10 * a + b) =~= seq![(48 + a) as char, (48 + b) as char]);
    }
}

/// What reads as a number is made of digits, behind a sign at most, and lies in the range.
pub proof fn law_number_is_digits(s: Seq<char>, lo: int, hi: int)
    ensures
        int_in(s, lo, hi) matches Some(n) ==> lo <= n <= hi && s.len() > 0 && forall|i: int|
            1 <= i < s.len() ==> '0' <= #[trigger] s[i] <= '9',
        s.len() == 0 ==> int_in(s, lo, hi) is None,
        lo >= 0 && s.len() > 0 && s[0] == '-' ==> int_in(s, lo, hi) is None,
{
    if int_in(s, lo, hi) is Some {
        let signed = (s[0] == '-' && lo < 0) || s[0] == '+';
        assert forall|i: int| 1 <= i < s.len() implies '0' <= #[trigger] s[i] <= '9' by {
            if s.len() > 0 && signed {
                assert(is_digit(s.skip(1)[i - 1]));
            } else {
                assert(is_digit(s[i]));
            }
        }
    }
    if lo >= 0 && s.len() > 0 && s[0] == '-' {
        assert(!is_digit(s[0]));
    }
}

/// A number in hexadecimal has as many digits as was asked for, the last one that of the rest.
pub proof fn law_hexadecimal_digits(n: int, width: nat)
    requires
        n >= 0,
        width > 0,
    ensures
        hex_digits(n, width).len() == width,
        hex_digits(n, width).drop_last() == hex_digits(n / 16, (width - 1) as nat),
        n % 16 < 10 ==> hex_digits(n, width).last() as int == 48 + n % 16,
        n % 16 >= 10 ==> hex_digits(n, width).last() as int == 97 + n % 16 - 10,
    decreases width,
{
    if width > 1 {
        law_hexadecimal_digits(n / 16, (width - 1) as nat);
    }
    assert(hex_digits(n, width).drop_last() =~= hex_digits(n / 16, (width - 1) as nat));
}

} // verus!
