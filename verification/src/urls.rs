//! Percent-encoding of text for URLs.

use vstd::prelude::*;
use crate::nums::{hex_upper, hex_upper_char};
use vstd::utf8::encode_utf8;

verus! {

/// A byte that stands for itself in a URL.
pub open spec fn unreserved(b: u8) -> bool {
    ||| 48 <= b <= 57
    ||| 65 <= b <= 90
    ||| 97 <= b <= 122
    ||| b == 45
    ||| b == 95
    ||| b == 46
    ||| b == 126
}

/// How one byte is written: itself where it is unreserved, or a slash that is kept; a space
/// as `+` where that is wished; any other as `%` and two hexadecimal digits.
pub open spec fn percent_byte(b: u8, plus: bool, slash: bool) -> Seq<char> {
    if unreserved(b) || (slash && b == 47) {
        seq![b as char]
    } else if plus && b == 32 {
        seq!['+']
    } else {
        seq!['%', hex_upper(b as int / 16), hex_upper(b as int % 16)]
    }
}

/// How bytes are written, one after the other.
pub open spec fn percent(bytes: Seq<u8>, plus: bool, slash: bool) -> Seq<char>
    decreases bytes.len(),
{
    if bytes.len() == 0 {
        Seq::empty()
    } else {
        percent_byte(bytes[0], plus, slash) + percent(bytes.skip(1), plus, slash)
    }
}

/// A text in a query: spaces become `+`.
pub open spec fn query_text(s: Seq<char>) -> Seq<char> {
    percent(encode_utf8(s), true, false)
}

/// A text in a path.
pub open spec fn path_text(s: Seq<char>) -> Seq<char> {
    percent(encode_utf8(s), false, false)
}

/// A text in a path whose slashes are kept.
pub open spec fn slash_path_text(s: Seq<char>) -> Seq<char> {
    percent(encode_utf8(s), false, true)
}

fn encode(s: &str, plus: bool, slash: bool) -> (r: String)
    ensures
        r@ == percent(encode_utf8(s@), plus, slash),
{
    let bytes = s.as_bytes();
    let mut out = String::new();
    assert(bytes@.skip(0) == bytes@);
    assert(out@ + percent(bytes@, plus, slash) == percent(bytes@, plus, slash));
    for i in 0..bytes.len()
        invariant
            bytes@ == encode_utf8(s@),
            out@ + percent(bytes@.skip(i as int), plus, slash) == percent(bytes@, plus, slash),
    {
        let b: u8 = bytes[i];
        let ghost before = out@;
        let ghost rest = bytes@.skip(i as int);
        proof {
            assert(rest[0] == b);
            assert(rest.skip(1) == bytes@.skip(i + 1));
        }
        let alnum = (48 <= b && b <= 57) || (65 <= b && b <= 90) || (97 <= b && b <= 122);
        if alnum || b == 45 || b == 95 || b == 46 || b == 126 || (slash && b == 47) {
            out.push(b as char);
        } else if plus && b == 32 {
            out.push('+');
        } else {
            out.push('%');
            out.push(hex_upper_char(b / 16));
            out.push(hex_upper_char(b % 16));
        }
        assert(out@ == before + percent_byte(b, plus, slash));
        assert(out@ + percent(bytes@.skip(i + 1), plus, slash) == before + percent(rest, plus, slash));
    }
    assert(bytes@.skip(bytes.len() as int).len() == 0);
    assert(out@ == percent(bytes@, plus, slash));
    out
}

/// Encodes a text for a query.
pub fn percent_encode(s: &str) -> (r: String)
    ensures
        r@ == query_text(s@),
{
    encode(s, true, false)
}

/// Encodes a text for a path.
pub fn percent_encode_path(s: &str) -> (r: String)
    ensures
        r@ == path_text(s@),
{
    encode(s, false, false)
}

/// Encodes a text for a path and keeps its slashes.
pub fn percent_encode_path_keep_slash(s: &str) -> (r: String)
    ensures
        r@ == slash_path_text(s@),
{
    encode(s, false, true)
}

// ---- laws ----

/// The value of a hexadecimal digit in upper case.
pub open spec fn hex_value(c: char) -> int {
    if '0' <= c <= '9' {
        c as int - '0' as int
    } else {
        c as int - 'A' as int + 10
    }
}

/// The bytes that an encoded text stands for.
pub open spec fn unpercent(t: Seq<char>, plus: bool) -> Seq<u8>
    decreases t.len(),
{
    if t.len() == 0 {
        Seq::empty()
    } else if t[0] == '%' && t.len() >= 3 {
        seq![(hex_value(t[1]) * 16 + hex_value(t[2])) as u8] + unpercent(t.skip(3), plus)
    } else if plus && t[0] == '+' {
        seq![32u8] + unpercent(t.skip(1), plus)
    } else {
        seq![t[0] as u8] + unpercent(t.skip(1), plus)
    }
}

/// What was encoded can be decoded: no two texts are written alike.
pub proof fn law_percent_reads_back(bytes: Seq<u8>, plus: bool, slash: bool)
    ensures
        unpercent(percent(bytes, plus, slash), plus) == bytes,
    decreases bytes.len(),
{
    if bytes.len() > 0 {
        let b = bytes[0];
        let rest = percent(bytes.skip(1), plus, slash);
        law_percent_reads_back(bytes.skip(1), plus, slash);
        let t = percent(bytes, plus, slash);
        let unit = percent_byte(b, plus, slash);
        assert(t.skip(unit.len() as int) == rest);
        assert(seq![b] + bytes.skip(1) == bytes);
        if unit.len() == 3 {
            assert(t[1] == hex_upper(b as int / 16));
            assert(t[2] == hex_upper(b as int % 16));
            assert(hex_value(t[1]) * 16 + hex_value(t[2]) == b);
        }
    }
}

/// What is encoded holds nothing but letters, digits, `-`, `_`, `.`, `~` and the percent signs of
/// what is not one of them; a slash only where slashes are kept, a plus only where spaces are
/// written so. Letters, digits and kept slashes stand for themselves.
pub proof fn law_percent_is_plain(bytes: Seq<u8>, plus: bool, slash: bool, i: int)
    requires
        0 <= i < percent(bytes, plus, slash).len(),
    ensures
        ({
            let c = percent(bytes, plus, slash)[i];
            ||| '0' <= c <= '9' || 'A' <= c <= 'Z' || 'a' <= c <= 'z' || c == '-' || c == '_' || c == '.' || c == '~'
            ||| c == '%'
            ||| c == '+' && plus
            ||| c == '/' && slash
        }),
    decreases bytes.len(),
{
    let unit = percent_byte(bytes[0], plus, slash);
    if i >= unit.len() {
        assert(percent(bytes, plus, slash)[i] == percent(bytes.skip(1), plus, slash)[i - unit.len()]);
        law_percent_is_plain(bytes.skip(1), plus, slash, i - unit.len());
    } else {
        assert(percent(bytes, plus, slash)[i] == unit[i]);
    }
}

/// Texts are encoded piece by piece; a slash between them stays one where slashes are kept, a
/// space becomes a plus in a query and `%20` in a path.
pub proof fn law_percent_adds(a: Seq<u8>, b: Seq<u8>, plus: bool, slash: bool)
    ensures
        percent(a + b, plus, slash) == percent(a, plus, slash) + percent(b, plus, slash),
        percent(seq![47u8], plus, true) == seq!['/'],
        percent(seq![47u8], plus, false) == seq!['%', '2', 'F'],
        percent(seq![32u8], true, slash) == seq!['+'],
        percent(seq![32u8], false, slash) == seq!['%', '2', '0'],
    decreases a.len(),
{
    reveal_with_fuel(percent, 2);
    assert(seq![47u8].skip(1) == Seq::<u8>::empty());
    assert(seq![32u8].skip(1) == Seq::<u8>::empty());
    assert(percent(seq![47u8], plus, true) =~= seq!['/']);
    assert(percent(seq![47u8], plus, false) =~= seq!['%', '2', 'F']);
    assert(percent(seq![32u8], true, slash) =~= seq!['+']);
    assert(percent(seq![32u8], false, slash) =~= seq!['%', '2', '0']);
    if a.len() == 0 {
        assert(a + b == b);
        assert(percent(a, plus, slash) + percent(b, plus, slash) == percent(b, plus, slash));
    } else {
        law_percent_adds(a.skip(1), b, plus, slash);
        assert((a + b).skip(1) == a.skip(1) + b);
        assert((a + b)[0] == a[0]);
        assert(percent_byte(a[0], plus, slash) + (percent(a.skip(1), plus, slash) + percent(b, plus, slash)) == percent_byte(
            a[0],
            plus,
            slash,
        ) + percent(a.skip(1), plus, slash) + percent(b, plus, slash));
    }
}

/// A letter, a digit, `-`, `_`, `.` or `~` is written as itself.
pub proof fn law_plain_bytes_stay(b: u8, plus: bool, slash: bool)
    requires
        48 <= b <= 57 || 65 <= b <= 90 || 97 <= b <= 122 || b == 45 || b == 95 || b == 46 || b == 126,
    ensures
        percent(seq![b], plus, slash) == seq![b as char],
{
    reveal_with_fuel(percent, 2);
    assert(seq![b].skip(1) == Seq::<u8>::empty());
    assert(percent(seq![b], plus, slash) =~= seq![b as char]);
}

} // verus!
