//! Numbers as the number patterns capture them: integers written in
//! binary, hexadecimal or octal, and decimal numbers with the separators of
//! the configuration and a letter that stands for a power of ten.
use vstd::prelude::*;
use crate::text::{chars_of, replace, spec_replace, text_eq};
use crate::types::NumberType;

verus! {

/// The value of a character as a digit of `radix`, as `char::to_digit`
/// gives it: `0-9`, then `a-z` or `A-Z` from ten on.
pub open spec fn spec_radix_digit(c: char, radix: int) -> Option<int> {
    if '0' <= c && c <= '9' && (c as int) - 48 < radix {
        Some((c as int) - 48)
    } else if 'a' <= c && c <= 'z' && (c as int) - 87 < radix {
        Some((c as int) - 87)
    } else if 'A' <= c && c <= 'Z' && (c as int) - 55 < radix {
        Some((c as int) - 55)
    } else {
        None
    }
}

/// Whether every character of a text is a digit of `radix`.
pub open spec fn all_radix_digits(s: Seq<char>, radix: int) -> bool {
    forall|i: int| 0 <= i < s.len() ==> (#[trigger] spec_radix_digit(s[i], radix)) is Some
}

/// The value of a run of digits of `radix`, most significant first.
pub open spec fn spec_radix_value(s: Seq<char>, radix: int) -> int
    decreases s.len(),
{
    if s.len() == 0 {
        0
    } else {
        spec_radix_value(s.drop_last(), radix) * radix + spec_radix_digit(s.last(), radix)->Some_0
    }
}

/// How `i64::from_str_radix` reads a text: an optional `+` or `-`, then at
/// least one digit of the radix and nothing else, with a value that fits.
pub open spec fn spec_from_str_radix(s: Seq<char>, radix: int) -> Option<int> {
    let signed = s.len() > 0 && (s[0] == '+' || s[0] == '-');
    let digits = if signed { s.drop_first() } else { s };
    if digits.len() > 0 && all_radix_digits(digits, radix) {
        let v = if signed && s[0] == '-' {
            -spec_radix_value(digits, radix)
        } else {
            spec_radix_value(digits, radix)
        };
        if i64::MIN <= v <= i64::MAX {
            Some(v)
        } else {
            None
        }
    } else {
        None
    }
}

proof fn lemma_radix_value_nonneg(s: Seq<char>, radix: int)
    requires
        2 <= radix,
        all_radix_digits(s, radix),
    ensures
        spec_radix_value(s, radix) >= 0,
    decreases s.len(),
{
    if s.len() > 0 {
        let p = s.drop_last();
        assert(all_radix_digits(p, radix)) by {
            assert forall|j: int| 0 <= j < p.len() implies (#[trigger] spec_radix_digit(p[j], radix)) is Some by {
                assert(p[j] == s[j]);
            }
        }
        lemma_radix_value_nonneg(p, radix);
        assert(spec_radix_digit(s[s.len() - 1], radix) is Some);
        let x = spec_radix_value(p, radix);
        assert(x * radix >= 0) by (nonlinear_arith)
            requires
                x >= 0,
                radix >= 2,
        ;
    }
}

/// The value of a digit prefix never exceeds the value of the whole run.
proof fn lemma_radix_value_grows(s: Seq<char>, radix: int, k: int)
    requires
        2 <= radix,
        0 <= k <= s.len(),
        all_radix_digits(s, radix),
    ensures
        spec_radix_value(s.subrange(0, k), radix) <= spec_radix_value(s, radix),
    decreases s.len() - k,
{
    if k < s.len() {
        lemma_radix_value_grows(s, radix, k + 1);
        let p = s.subrange(0, k + 1);
        let q = s.subrange(0, k);
        assert(p.drop_last() =~= q);
        assert(p.last() == s[k]);
        assert(spec_radix_digit(s[k], radix) is Some);
        assert(all_radix_digits(q, radix)) by {
            assert forall|j: int| 0 <= j < q.len() implies (#[trigger] spec_radix_digit(q[j], radix)) is Some by {
                assert(q[j] == s[j]);
            }
        }
        lemma_radix_value_nonneg(q, radix);
        let x = spec_radix_value(q, radix);
        assert(x * radix >= x) by (nonlinear_arith)
            requires
                x >= 0,
                radix >= 2,
        ;
    } else {
        assert(s.subrange(0, k) =~= s);
    }
}

fn radix_digit(c: char, radix: u32) -> (r: Option<u32>)
    requires
        2 <= radix <= 36,
    ensures
        match r {
            Some(d) => spec_radix_digit(c, radix as int) == Some(d as int),
            None => spec_radix_digit(c, radix as int) is None,
        },
{
    let code: u32 = c as u32;
    if '0' <= c && c <= '9' && code - 48 < radix {
        Some(code - 48)
    } else if 'a' <= c && c <= 'z' && code - 87 < radix {
        Some(code - 87)
    } else if 'A' <= c && c <= 'Z' && code - 55 < radix {
        Some(code - 55)
    } else {
        None
    }
}

/// Reads an `i64` written in `radix` as `i64::from_str_radix` does: `None`
/// when the text is not an optionally signed run of digits of the radix, or
/// when its value does not fit.
pub fn parse_radix(s: &str, radix: u32) -> (r: Option<i64>)
    requires
        2 <= radix <= 36,
    ensures
        match r {
            Some(v) => spec_from_str_radix(s@, radix as int) == Some(v as int),
            None => spec_from_str_radix(s@, radix as int) is None,
        },
{
    let chars = chars_of(s);
    let n: usize = chars.len();
    let signed: bool = n > 0 && (chars[0] == '+' || chars[0] == '-');
    let negative: bool = signed && chars[0] == '-';
    let start: usize = if signed { 1 } else { 0 };
    let ghost rx = radix as int;
    let ghost digits = if signed { s@.drop_first() } else { s@ };
    if start >= n {
        return None;
    }
    assert(digits =~= s@.subrange(start as int, n as int));
    // The magnitude is accumulated in i128, bounded just above the i64 range.
    let mut value: i128 = 0;
    let mut i: usize = start;
    while i < n
        invariant
            2 <= radix <= 36,
            rx == radix as int,
            chars@ == s@,
            n == s@.len(),
            start <= i <= n,
            digits == s@.subrange(start as int, n as int),
            signed == (s@.len() > 0 && (s@[0] == '+' || s@[0] == '-')),
            negative == (signed && s@[0] == '-'),
            digits == (if signed { s@.drop_first() } else { s@ }),
            all_radix_digits(s@.subrange(start as int, i as int), rx),
            value == spec_radix_value(s@.subrange(start as int, i as int), rx),
            0 <= value <= 0x8000_0000_0000_0000i128,
        decreases n - i,
    {
        let c = chars[i];
        let d: u32 = match radix_digit(c, radix) {
            Some(d) => d,
            None => {
                proof {
                    assert(digits[i - start] == s@[i as int]);
                    assert(spec_radix_digit(digits[i - start], rx) is None);
                    assert(!all_radix_digits(digits, rx));
                }
                return None;
            },
        };
        assert(value * (radix as i128) <= 0x8000_0000_0000_0000i128 * 36) by (nonlinear_arith)
            requires
                0 <= value <= 0x8000_0000_0000_0000i128,
                2 <= radix <= 36,
        ;
        let next: i128 = value * (radix as i128) + (d as i128);
        proof {
            let prefix = s@.subrange(start as int, i + 1);
            assert(prefix.drop_last() =~= s@.subrange(start as int, i as int));
            assert(prefix.last() == c);
            assert(spec_radix_value(prefix, rx) == next);
            assert(all_radix_digits(prefix, rx)) by {
                assert forall|j: int| 0 <= j < prefix.len() implies (#[trigger] spec_radix_digit(prefix[j], rx)) is Some by {
                    if j < prefix.len() - 1 {
                        assert(prefix[j] == s@.subrange(start as int, i as int)[j]);
                    }
                }
            }
            assert(value * (radix as i128) >= 0) by (nonlinear_arith)
                requires
                    0 <= value,
                    2 <= radix,
            ;
        }
        if next > 0x8000_0000_0000_0000i128 {
            proof {
                if all_radix_digits(digits, rx) {
                    lemma_radix_value_grows(digits, rx, (i + 1 - start) as int);
                    assert(digits.subrange(0, (i + 1 - start) as int) =~= s@.subrange(start as int, i + 1));
                }
            }
            return None;
        }
        value = next;
        i = i + 1;
    }
    proof {
        assert(s@.subrange(start as int, n as int) =~= digits);
        assert(all_radix_digits(digits, rx));
        assert(value == spec_radix_value(digits, rx));
    }
    if negative {
        Some((0i128 - value) as i64)
    } else if value > 0x7fff_ffff_ffff_ffffi128 {
        None
    } else {
        Some(value as i64)
    }
}

/// The power of ten a notation letter stands for: `k` or `K` a thousand,
/// `M` a million, `G`, `T`, `P`, `Z` and `Y` ten to the 9, 12, 15, 18 and
/// 21; any other text leaves the number as it is.
pub open spec fn spec_notation_exponent(notation: Seq<char>) -> nat {
    if notation == "k"@ || notation == "K"@ {
        3
    } else if notation == "M"@ {
        6
    } else if notation == "G"@ {
        9
    } else if notation == "T"@ {
        12
    } else if notation == "P"@ {
        15
    } else if notation == "Z"@ {
        18
    } else if notation == "Y"@ {
        21
    } else {
        0
    }
}

/// The power of ten a notation letter stands for.
pub fn notation_exponent(notation: &str) -> (r: u32)
    ensures
        r == spec_notation_exponent(notation@),
{
    if text_eq(notation, "k") || text_eq(notation, "K") {
        3
    } else if text_eq(notation, "M") {
        6
    } else if text_eq(notation, "G") {
        9
    } else if text_eq(notation, "T") {
        12
    } else if text_eq(notation, "P") {
        15
    } else if text_eq(notation, "Z") {
        18
    } else if text_eq(notation, "Y") {
        21
    } else {
        0
    }
}

/// The named parts a number pattern captured.
pub struct NumberParts {
    pub binary: Option<String>,
    pub hex: Option<String>,
    pub octal: Option<String>,
    pub decimal: Option<String>,
    pub notation: Option<String>,
}

/// How a captured number reads.
pub enum NumberReading {
    /// An integer written in another base, and that base.
    Integer(i64, NumberType),
    /// A decimal number: its text with `.` as the decimal point and no
    /// thousands separators, to be multiplied by ten to the given power.
    Decimal(String, u32),
    /// No number part was captured: the number zero.
    Zero,
}

/// What a number written in `radix` reads as: the integer, or nothing when
/// the text is not a number of the radix.
pub open spec fn reads_radix(r: Option<NumberReading>, s: Seq<char>, radix: int, kind: NumberType) -> bool {
    match spec_from_str_radix(s, radix) {
        Some(v) => r == Some(NumberReading::Integer(v as i64, kind)),
        None => r is None,
    }
}

/// The text of a decimal number with the thousands separators dropped and
/// the decimal separator turned into `.`.
pub open spec fn spec_decimal_text(s: Seq<char>, thousands: Seq<char>, decimal: Seq<char>) -> Seq<char> {
    spec_replace(spec_replace(s, thousands, ""@), decimal, "."@)
}

/// Reads the number a pattern captured. The first part captured decides:
/// binary, then hexadecimal, then octal, then decimal; with none, the
/// number is zero. `None` when the binary, hexadecimal or octal text is not
/// a number of its base.
pub fn read_number(parts: &NumberParts, thousands_separator: &str, decimal_separator: &str) -> (r: Option<NumberReading>)
    ensures
        parts.binary matches Some(b) ==> reads_radix(r, b@, 2, NumberType::Binary),
        parts.binary is None ==> (parts.hex matches Some(h) ==> reads_radix(r, h@, 16, NumberType::Hexadecimal)),
        parts.binary is None && parts.hex is None ==> (parts.octal matches Some(o) ==> reads_radix(r, o@, 8, NumberType::Octal)),
        parts.binary is None && parts.hex is None && parts.octal is None ==> (parts.decimal matches Some(d) ==> {
            &&& r matches Some(NumberReading::Decimal(text, exponent))
            &&& text@ == spec_decimal_text(d@, thousands_separator@, decimal_separator@)
            &&& exponent == (match parts.notation {
                Some(n) => spec_notation_exponent(n@),
                None => 0,
            })
        }),
        parts.binary is None && parts.hex is None && parts.octal is None && parts.decimal is None ==> r == Some(NumberReading::Zero),
{
    match &parts.binary {
        Some(b) => {
            return match parse_radix(b.as_str(), 2) {
                Some(v) => Some(NumberReading::Integer(v, NumberType::Binary)),
                None => None,
            };
        },
        None => {},
    }
    match &parts.hex {
        Some(h) => {
            return match parse_radix(h.as_str(), 16) {
                Some(v) => Some(NumberReading::Integer(v, NumberType::Hexadecimal)),
                None => None,
            };
        },
        None => {},
    }
    match &parts.octal {
        Some(o) => {
            return match parse_radix(o.as_str(), 8) {
                Some(v) => Some(NumberReading::Integer(v, NumberType::Octal)),
                None => None,
            };
        },
        None => {},
    }
    match &parts.decimal {
        Some(d) => {
            let without_thousands = replace(d.as_str(), thousands_separator, "");
            let text = replace(without_thousands.as_str(), decimal_separator, ".");
            let exponent: u32 = match &parts.notation {
                Some(n) => notation_exponent(n.as_str()),
                None => 0,
            };
            Some(NumberReading::Decimal(text, exponent))
        },
        None => Some(NumberReading::Zero),
    }
}

} // verus!
