//! Text helpers: decimal rendering and reading of integers, zero padding,
//! and the few standard string conversions the calculator relies on.
use vstd::prelude::*;

verus! {

// ---------------------------------------------------------------------
// Standard conversions: Unicode case mapping is named rather than spelled
// out; trimming and substring replacement are spelled out.
// ---------------------------------------------------------------------

/// What `str::to_lowercase` returns for a text.
pub uninterp spec fn spec_lowercase(s: Seq<char>) -> Seq<char>;

/// What `str::to_uppercase` returns for a text.
pub uninterp spec fn spec_uppercase(s: Seq<char>) -> Seq<char>;

/// What `char::to_uppercase` yields for a character, collected into a text.
pub uninterp spec fn spec_char_uppercase(c: char) -> Seq<char>;

/// Whether `char::is_whitespace` holds of a character: the Unicode
/// `White_Space` characters.
pub open spec fn is_white_space(c: char) -> bool {
    ||| ('\u{9}' <= c && c <= '\u{D}')
    ||| c == ' '
    ||| c == '\u{85}'
    ||| c == '\u{A0}'
    ||| c == '\u{1680}'
    ||| ('\u{2000}' <= c && c <= '\u{200A}')
    ||| c == '\u{2028}'
    ||| c == '\u{2029}'
    ||| c == '\u{202F}'
    ||| c == '\u{205F}'
    ||| c == '\u{3000}'
}

/// A text without the white space at its start.
pub open spec fn spec_trim_start(s: Seq<char>) -> Seq<char>
    decreases s.len(),
{
    if s.len() > 0 && is_white_space(s[0]) { spec_trim_start(s.drop_first()) } else { s }
}

/// A text without the white space at its end.
pub open spec fn spec_trim_end(s: Seq<char>) -> Seq<char>
    decreases s.len(),
{
    if s.len() > 0 && is_white_space(s.last()) { spec_trim_end(s.drop_last()) } else { s }
}

/// What `str::trim` returns for a text: the text without the white space
/// at either end.
pub open spec fn spec_trim(s: Seq<char>) -> Seq<char> {
    spec_trim_end(spec_trim_start(s))
}

/// What `str::replace(from, to)` returns for a text: scanning from the
/// left, each occurrence of `from` that does not overlap an earlier one is
/// replaced by `to`; an empty `from` occurs before every character and at
/// the end.
pub open spec fn spec_replace(s: Seq<char>, from: Seq<char>, to: Seq<char>) -> Seq<char>
    decreases s.len(),
{
    if from.len() == 0 {
        if s.len() == 0 { to } else { to + seq![s[0]] + spec_replace(s.drop_first(), from, to) }
    } else if s.len() < from.len() {
        s
    } else if s.take(from.len() as int) == from {
        to + spec_replace(s.skip(from.len() as int), from, to)
    } else {
        seq![s[0]] + spec_replace(s.drop_first(), from, to)
    }
}

/// `str::to_lowercase`. The result is named: it is a function of the text alone.
#[verifier::external_body]
pub(crate) fn to_lowercase(s: &str) -> (r: String)
    ensures
        r@ == spec_lowercase(s@),
{
    s.to_lowercase()
}

/// `str::to_uppercase`. The result is named: it is a function of the text alone.
#[verifier::external_body]
pub(crate) fn to_uppercase(s: &str) -> (r: String)
    ensures
        r@ == spec_uppercase(s@),
{
    s.to_uppercase()
}

/// `char::to_uppercase`, collected into a `String`. The result is named.
#[verifier::external_body]
pub(crate) fn char_to_uppercase(c: char) -> (r: String)
    ensures
        r@ == spec_char_uppercase(c),
{
    c.to_uppercase().collect::<String>()
}

/// Whether a character is white space, as `char::is_whitespace` says.
fn white_space(c: char) -> (r: bool)
    ensures
        r == is_white_space(c),
{
    ('\u{9}' <= c && c <= '\u{D}') || c == ' ' || c == '\u{85}' || c == '\u{A0}' || c == '\u{1680}'
        || ('\u{2000}' <= c && c <= '\u{200A}') || c == '\u{2028}' || c == '\u{2029}' || c == '\u{202F}'
        || c == '\u{205F}' || c == '\u{3000}'
}

proof fn lemma_trim_start_skip(s: Seq<char>, a: int)
    requires
        0 <= a <= s.len(),
        forall|k: int| 0 <= k < a ==> is_white_space(#[trigger] s[k]),
        a == s.len() || !is_white_space(s[a]),
    ensures
        spec_trim_start(s) == s.skip(a),
    decreases a,
{
    if a == 0 {
        assert(s.skip(0) =~= s);
    } else {
        let t = s.drop_first();
        assert forall|k: int| 0 <= k < a - 1 implies is_white_space(#[trigger] t[k]) by {
            assert(t[k] == s[k + 1]);
        }
        assert(is_white_space(s[0]));
        lemma_trim_start_skip(t, a - 1);
        assert(t.skip(a - 1) =~= s.skip(a));
    }
}

proof fn lemma_trim_end_take(t: Seq<char>, b: int)
    requires
        0 <= b <= t.len(),
        forall|k: int| b <= k < t.len() ==> is_white_space(#[trigger] t[k]),
        b == 0 || !is_white_space(t[b - 1]),
    ensures
        spec_trim_end(t) == t.take(b),
    decreases t.len() - b,
{
    if b == t.len() {
        assert(t.take(b) =~= t);
    } else {
        let u = t.drop_last();
        assert(is_white_space(t[t.len() - 1]));
        assert forall|k: int| b <= k < u.len() implies is_white_space(#[trigger] u[k]) by {
            assert(u[k] == t[k]);
        }
        if b > 0 {
            assert(u[b - 1] == t[b - 1]);
        }
        lemma_trim_end_take(u, b);
        assert(u.take(b) =~= t.take(b));
    }
}

/// The characters of `chars` from `start` to `end` appended to a string.
fn append_chars(out: &mut String, chars: &Vec<char>, start: usize, end: usize)
    requires
        start <= end <= chars@.len(),
    ensures
        final(out)@ == old(out)@ + chars@.subrange(start as int, end as int),
{
    let mut k: usize = start;
    while k < end
        invariant
            start <= k <= end <= chars@.len(),
            out@ == old(out)@ + chars@.subrange(start as int, k as int),
        decreases end - k,
    {
        push_char(out, chars[k]);
        k = k + 1;
        assert(out@ =~= old(out)@ + chars@.subrange(start as int, k as int));
    }
}

/// `str::trim`: the text without the white space at either end.
pub(crate) fn trim(s: &str) -> (r: String)
    ensures
        r@ == spec_trim(s@),
{
    let chars = chars_of(s);
    let n = chars.len();
    let mut a: usize = 0;
    while a < n && white_space(chars[a])
        invariant
            a <= n == chars@.len(),
            forall|k: int| 0 <= k < a ==> is_white_space(#[trigger] chars@[k]),
        decreases n - a,
    {
        a = a + 1;
    }
    let mut b: usize = n;
    while b > a && white_space(chars[b - 1])
        invariant
            a <= b <= n == chars@.len(),
            forall|k: int| b <= k < n ==> is_white_space(#[trigger] chars@[k]),
        decreases b,
    {
        b = b - 1;
    }
    proof {
        lemma_trim_start_skip(s@, a as int);
        let t = s@.skip(a as int);
        assert forall|k: int| b - a <= k < t.len() implies is_white_space(#[trigger] t[k]) by {
            assert(t[k] == s@[k + a]);
        }
        if b > a {
            assert(t[b - a - 1] == s@[b - 1]);
        }
        lemma_trim_end_take(t, b - a);
        assert(t.take(b - a) =~= s@.subrange(a as int, b as int));
    }
    let mut r = String::new();
    append_chars(&mut r, &chars, a, b);
    assert(r@ =~= chars@.subrange(a as int, b as int));
    r
}

/// Whether `pattern` stands in `chars` at `i`.
fn matches_at(chars: &Vec<char>, pattern: &Vec<char>, i: usize) -> (r: bool)
    requires
        i + pattern@.len() <= chars@.len(),
    ensures
        r == (chars@.subrange(i as int, i + pattern@.len()) == pattern@),
{
    let mut k: usize = 0;
    while k < pattern.len()
        invariant
            k <= pattern@.len(),
            i + pattern@.len() <= chars.len(),
            forall|j: int| 0 <= j < k ==> chars@[i + j] == pattern@[j],
        decreases pattern@.len() - k,
    {
        if chars[i + k] != pattern[k] {
            assert(chars@.subrange(i as int, i + pattern@.len())[k as int] != pattern@[k as int]);
            return false;
        }
        k = k + 1;
    }
    assert(chars@.subrange(i as int, i + pattern@.len()) =~= pattern@);
    true
}

/// `str::replace`: every non-overlapping occurrence of `from`, scanned left
/// to right, replaced by `to`.
pub(crate) fn replace(s: &str, from: &str, to: &str) -> (r: String)
    ensures
        r@ == spec_replace(s@, from@, to@),
{
    let chars = chars_of(s);
    let pattern = chars_of(from);
    let n = chars.len();
    let f = pattern.len();
    let mut out = String::new();
    let mut i: usize = 0;
    assert(s@.skip(0) =~= s@);
    loop
        invariant_except_break
            out@ + spec_replace(s@.skip(i as int), from@, to@) == spec_replace(s@, from@, to@),
        invariant
            i <= n,
            chars@ == s@,
            pattern@ == from@,
            n == s@.len(),
            f == from@.len(),
        ensures
            out@ == spec_replace(s@, from@, to@),
        decreases n - i,
    {
        let ghost rest = s@.skip(i as int);
        if f == 0 {
            append_str(&mut out, to);
            if i == n {
                assert(rest.len() == 0);
                break;
            }
            push_char(&mut out, chars[i]);
            proof {
                assert(rest[0] == s@[i as int]);
                assert(rest.drop_first() =~= s@.skip(i + 1));
            }
            i = i + 1;
        } else if n - i < f {
            let ghost before = out@;
            append_chars(&mut out, &chars, i, n);
            assert(s@.subrange(i as int, n as int) =~= rest);
            assert(out@ == before + rest);
            break;
        } else if matches_at(&chars, &pattern, i) {
            append_str(&mut out, to);
            proof {
                assert(rest.take(f as int) =~= s@.subrange(i as int, i + f));
                assert(rest.skip(f as int) =~= s@.skip(i + f));
            }
            i = i + f;
        } else {
            push_char(&mut out, chars[i]);
            proof {
                assert(rest.take(f as int) =~= s@.subrange(i as int, i + f));
                assert(rest[0] == s@[i as int]);
                assert(rest.drop_first() =~= s@.skip(i + 1));
            }
            i = i + 1;
        }
    }
    out
}

/// `String::push`: appends one character.
#[verifier::external_body]
pub(crate) fn push_char(s: &mut String, c: char)
    ensures
        final(s)@ == old(s)@.push(c),
{
    s.push(c)
}

/// Builds a `String` holding exactly the given characters.
pub fn string_from_chars(chars: &Vec<char>) -> (r: String)
    ensures
        r@ == chars@,
{
    let mut r = String::new();
    let mut i: usize = 0;
    while i < chars.len()
        invariant
            i <= chars.len(),
            r@ == chars@.subrange(0, i as int),
        decreases chars.len() - i,
    {
        push_char(&mut r, chars[i]);
        i = i + 1;
        assert(r@ =~= chars@.subrange(0, i as int));
    }
    assert(chars@.subrange(0, chars.len() as int) =~= chars@);
    r
}

/// The characters of a text, in order.
pub fn chars_of(s: &str) -> (r: Vec<char>)
    ensures
        r@ == s@,
{
    let n: usize = s.unicode_len();
    let mut r: Vec<char> = Vec::new();
    let mut i: usize = 0;
    while i < n
        invariant
            n == s@.len(),
            i <= n,
            r@ == s@.subrange(0, i as int),
        decreases n - i,
    {
        r.push(s.get_char(i));
        i = i + 1;
        assert(r@ =~= s@.subrange(0, i as int));
    }
    assert(s@.subrange(0, n as int) =~= s@);
    r
}

/// Appends a text to a string.
pub fn append_str(s: &mut String, t: &str)
    ensures
        final(s)@ == old(s)@ + t@,
{
    s.append(t);
}

/// Text equality of two strings.
pub fn text_eq(a: &str, b: &str) -> (r: bool)
    ensures
        r == (a@ == b@),
{
    let ca = chars_of(a);
    let cb = chars_of(b);
    if ca.len() != cb.len() {
        return false;
    }
    let mut i: usize = 0;
    while i < ca.len()
        invariant
            ca@ == a@,
            cb@ == b@,
            ca.len() == cb.len(),
            i <= ca.len(),
            forall|j: int| 0 <= j < i ==> ca@[j] == cb@[j],
        decreases ca.len() - i,
    {
        if ca[i] != cb[i] {
            return false;
        }
        i = i + 1;
    }
    assert(ca@ =~= cb@);
    true
}

// ---------------------------------------------------------------------
// Decimal digits
// ---------------------------------------------------------------------

/// The character of a decimal digit `0..=9`.
pub open spec fn digit_char(d: int) -> char {
    (d + 48) as char
}

/// Whether a character is an ASCII decimal digit.
pub open spec fn is_digit(c: char) -> bool {
    '0' <= c && c <= '9'
}

/// The value of an ASCII decimal digit.
pub open spec fn digit_value(c: char) -> int {
    c as int - 48
}

/// The shortest decimal rendering of a natural number.
pub open spec fn spec_decimal_nat(n: nat) -> Seq<char>
    decreases n,
{
    if n < 10 {
        seq![digit_char(n as int)]
    } else {
        spec_decimal_nat(n / 10).push(digit_char(n as int % 10))
    }
}

/// How Rust's `Display` renders an integer: a `-` for negative values, then
/// the shortest decimal digits of the magnitude.
pub open spec fn spec_decimal(n: int) -> Seq<char> {
    if n < 0 {
        seq!['-'] + spec_decimal_nat((-n) as nat)
    } else {
        spec_decimal_nat(n as nat)
    }
}

/// The value of a sequence of decimal digits, most significant first.
pub open spec fn spec_digits_value(s: Seq<char>) -> int
    decreases s.len(),
{
    if s.len() == 0 {
        0
    } else {
        spec_digits_value(s.drop_last()) * 10 + digit_value(s.last())
    }
}

/// Whether every character of a text is a decimal digit.
pub open spec fn all_digits(s: Seq<char>) -> bool {
    forall|i: int| 0 <= i < s.len() ==> is_digit(#[trigger] s[i])
}

/// How `str::parse` reads an integer: an optional `+` or `-`, then at least
/// one decimal digit and nothing else. Range limits are checked separately.
pub open spec fn spec_parse_int(s: Seq<char>) -> Option<int> {
    let signed = s.len() > 0 && (s[0] == '+' || s[0] == '-');
    let digits = if signed { s.drop_first() } else { s };
    if digits.len() > 0 && all_digits(digits) {
        if signed && s[0] == '-' {
            Some(-spec_digits_value(digits))
        } else {
            Some(spec_digits_value(digits))
        }
    } else {
        None
    }
}

proof fn lemma_decimal_nat_digits(n: nat)
    ensures
        spec_decimal_nat(n).len() > 0,
        all_digits(spec_decimal_nat(n)),
        spec_digits_value(spec_decimal_nat(n)) == n,
    decreases n,
{
    lemma_digit_char((n % 10) as int);
    if n < 10 {
        assert(spec_decimal_nat(n).drop_last() =~= Seq::<char>::empty());
        assert(spec_digits_value(Seq::<char>::empty()) == 0);
    }
    if n >= 10 {
        lemma_decimal_nat_digits(n / 10);
        let s = spec_decimal_nat(n);
        assert(s.drop_last() =~= spec_decimal_nat(n / 10));
        assert(s.last() == digit_char(n as int % 10));
        assert(spec_digits_value(s) == (n / 10) * 10 + n % 10);
        vstd::arithmetic::div_mod::lemma_fundamental_div_mod(n as int, 10);
        assert(all_digits(s)) by {
            assert forall|j: int| 0 <= j < s.len() implies is_digit(#[trigger] s[j]) by {
                if j < s.len() - 1 {
                    assert(s[j] == spec_decimal_nat(n / 10)[j]);
                }
            }
        }
    }
}

proof fn lemma_digit_char(d: int)
    requires
        0 <= d < 10,
    ensures
        is_digit(digit_char(d)),
        digit_value(digit_char(d)) == d,
{
}

/// Reading back the decimal rendering of any integer gives that integer.
pub proof fn lemma_parse_decimal_roundtrip(n: int)
    ensures
        spec_parse_int(spec_decimal(n)) == Some(n),
{
    if n < 0 {
        let m = (-n) as nat;
        lemma_decimal_nat_digits(m);
        let s = spec_decimal(n);
        assert(s.drop_first() =~= spec_decimal_nat(m));
    } else {
        lemma_decimal_nat_digits(n as nat);
        let s = spec_decimal_nat(n as nat);
        assert(s[0] != '+' && s[0] != '-') by {
            assert(is_digit(s[0]));
        }
    }
}

fn digit_of(d: u64) -> (c: char)
    requires
        d < 10,
    ensures
        c == digit_char(d as int),
{
    let b: u8 = d as u8 + 48u8;
    b as char
}

/// The decimal digits of a natural number.
pub fn nat_digits(n: u64) -> (r: Vec<char>)
    ensures
        r@ == spec_decimal_nat(n as nat),
    decreases n,
{
    if n < 10 {
        let mut r: Vec<char> = Vec::new();
        r.push(digit_of(n));
        r
    } else {
        let mut r = nat_digits(n / 10);
        r.push(digit_of(n % 10));
        r
    }
}

/// Renders an integer as `Display` does.
pub fn int_to_string(n: i64) -> (r: String)
    ensures
        r@ == spec_decimal(n as int),
{
    if n < 0 {
        let wide: i128 = n as i128;
        let magnitude: u64 = (0i128 - wide) as u64;
        let digits = nat_digits(magnitude);
        let mut r = String::new();
        push_char(&mut r, '-');
        let tail = string_from_chars(&digits);
        append_str(&mut r, tail.as_str());
        assert(r@ =~= spec_decimal(n as int));
        r
    } else {
        let digits = nat_digits(n as u64);
        string_from_chars(&digits)
    }
}

/// Reads an `i64` as `str::parse::<i64>` does: `None` when the text is not an
/// optionally signed run of decimal digits, or when its value does not fit.
pub fn parse_i64(s: &str) -> (r: Option<i64>)
    ensures
        r matches Some(v) ==> spec_parse_int(s@) == Some(v as int),
        r is None ==> (spec_parse_int(s@) is None
            || spec_parse_int(s@).unwrap() < i64::MIN || spec_parse_int(s@).unwrap() > i64::MAX),
{
    let chars = chars_of(s);
    let n: usize = chars.len();
    let signed: bool = n > 0 && (chars[0] == '+' || chars[0] == '-');
    let negative: bool = signed && chars[0] == '-';
    let start: usize = if signed { 1 } else { 0 };
    if start >= n {
        return None;
    }
    let ghost digits = if signed { s@.drop_first() } else { s@ };
    assert(digits =~= s@.subrange(start as int, n as int));
    // The magnitude is accumulated in i128, bounded just above the i64 range.
    let mut value: i128 = 0;
    let mut i: usize = start;
    while i < n
        invariant
            chars@ == s@,
            n == s@.len(),
            start <= i <= n,
            digits == s@.subrange(start as int, n as int),
            signed == (s@.len() > 0 && (s@[0] == '+' || s@[0] == '-')),
            negative == (signed && s@[0] == '-'),
            digits == (if signed { s@.drop_first() } else { s@ }),
            all_digits(s@.subrange(start as int, i as int)),
            value == spec_digits_value(s@.subrange(start as int, i as int)),
            0 <= value <= 0x8000_0000_0000_0000i128,
        decreases n - i,
    {
        let c = chars[i];
        if !('0' <= c && c <= '9') {
            proof {
                assert(digits[i - start] == s@[i as int]);
                assert(!is_digit(digits[i - start]));
                assert(!all_digits(digits));
            }
            return None;
        }
        let d: i128 = (c as u32 - 48u32) as i128;
        let next: i128 = value * 10 + d;
        proof {
            let prefix = s@.subrange(start as int, i + 1);
            assert(prefix.drop_last() =~= s@.subrange(start as int, i as int));
            assert(prefix.last() == c);
            assert(digit_value(c) == d);
            assert(spec_digits_value(prefix) == next);
            assert(all_digits(prefix)) by {
                assert forall|j: int| 0 <= j < prefix.len() implies is_digit(#[trigger] prefix[j]) by {
                    if j < prefix.len() - 1 {
                        assert(prefix[j] == s@.subrange(start as int, i as int)[j]);
                    }
                }
            }
        }
        if next > 0x8000_0000_0000_0000i128 {
            proof {
                if all_digits(digits) {
                    lemma_digits_value_grows(digits, (i + 1 - start) as int);
                    assert(digits.subrange(0, (i + 1 - start) as int) =~= s@.subrange(start as int, i + 1));
                }
            }
            return None;
        }
        value = next;
        i = i + 1;
    }
    proof {
        assert(s@.subrange(start as int, n as int) =~= digits);
        assert(all_digits(digits));
        assert(value == spec_digits_value(digits));
        assert(negative == (signed && s@[0] == '-'));
    }
    if negative {
        Some((0i128 - value) as i64)
    } else if value > 0x7fff_ffff_ffff_ffffi128 {
        None
    } else {
        Some(value as i64)
    }
}

/// The value of a digit prefix never exceeds the value of the whole digit run.
proof fn lemma_digits_value_grows(s: Seq<char>, k: int)
    requires
        0 <= k <= s.len(),
        all_digits(s),
    ensures
        spec_digits_value(s.subrange(0, k)) <= spec_digits_value(s),
    decreases s.len() - k,
{
    if k < s.len() {
        lemma_digits_value_grows(s, k + 1);
        let p = s.subrange(0, k + 1);
        assert(p.drop_last() =~= s.subrange(0, k));
        assert(is_digit(p.last()));
        lemma_digits_value_nonneg(s.subrange(0, k));
    } else {
        assert(s.subrange(0, k) =~= s);
    }
}

proof fn lemma_digits_value_nonneg(s: Seq<char>)
    requires
        all_digits(s),
    ensures
        spec_digits_value(s) >= 0,
    decreases s.len(),
{
    if s.len() > 0 {
        assert(all_digits(s.drop_last())) by {
            assert forall|j: int| 0 <= j < s.drop_last().len() implies is_digit(#[trigger] s.drop_last()[j]) by {
                assert(s.drop_last()[j] == s[j]);
            }
        }
        lemma_digits_value_nonneg(s.drop_last());
        assert(is_digit(s[s.len() - 1]));
    }
}

// ---------------------------------------------------------------------
// Zero padding
// ---------------------------------------------------------------------

/// `n` copies of the character `0`.
pub open spec fn zeros(n: int) -> Seq<char> {
    Seq::new(if n > 0 { n as nat } else { 0 }, |_i: int| '0')
}

/// How `format!("{:0width$}", number)` renders an integer: the sign first,
/// then zeros, then the digits, so that the whole is at least `width` long.
pub open spec fn spec_left_padding(number: int, width: int) -> Seq<char> {
    let digits = spec_decimal_nat(if number < 0 { (-number) as nat } else { number as nat });
    if number < 0 {
        seq!['-'] + zeros(width - 1 - digits.len()) + digits
    } else {
        zeros(width - digits.len()) + digits
    }
}

/// Renders `number` in decimal, padded with zeros after the sign to at least
/// `size` characters.
pub fn left_padding(number: i64, size: usize) -> (r: String)
    ensures
        r@ == spec_left_padding(number as int, size as int),
{
    let negative: bool = number < 0;
    let magnitude: u64 = if negative { (0i128 - number as i128) as u64 } else { number as u64 };
    let digits = nat_digits(magnitude);
    let sign_len: usize = if negative { 1 } else { 0 };
    let mut r = String::new();
    if negative {
        push_char(&mut r, '-');
    }
    let mut pad: usize = 0;
    let wanted: usize = if size > sign_len && size - sign_len > digits.len() { size - sign_len - digits.len() } else { 0 };
    while pad < wanted
        invariant
            pad <= wanted,
            r@ == (if negative { seq!['-'] } else { Seq::<char>::empty() }) + zeros(pad as int),
        decreases wanted - pad,
    {
        push_char(&mut r, '0');
        pad = pad + 1;
        assert(r@ =~= (if negative { seq!['-'] } else { Seq::<char>::empty() }) + zeros(pad as int));
    }
    let tail = string_from_chars(&digits);
    append_str(&mut r, tail.as_str());
    assert(r@ =~= spec_left_padding(number as int, size as int));
    r
}

/// Stripping the sign and the padding zeros of a zero-padded rendering reads
/// back the number it was made from.
pub proof fn lemma_left_padding_roundtrip(number: int, width: int)
    ensures
        spec_parse_int(spec_left_padding(number, width)) == Some(number),
{
    let m: nat = if number < 0 { (-number) as nat } else { number as nat };
    let digits = spec_decimal_nat(m);
    lemma_decimal_nat_digits(m);
    lemma_leading_zeros_value(zeros(if number < 0 { width - 1 - digits.len() } else { width - digits.len() }), digits);
    let body = zeros(if number < 0 { width - 1 - digits.len() } else { width - digits.len() }) + digits;
    assert(all_digits(body)) by {
        assert forall|j: int| 0 <= j < body.len() implies is_digit(#[trigger] body[j]) by {
            if j >= body.len() - digits.len() {
                assert(body[j] == digits[j - (body.len() - digits.len())]);
            }
        }
    }
    let s = spec_left_padding(number, width);
    if number < 0 {
        assert(s.drop_first() =~= body);
    } else {
        assert(s =~= body);
        assert(is_digit(body[0]));
    }
}

proof fn lemma_leading_zeros_value(z: Seq<char>, d: Seq<char>)
    requires
        forall|i: int| 0 <= i < z.len() ==> z[i] == '0',
    ensures
        spec_digits_value(z + d) == spec_digits_value(d),
    decreases d.len(), z.len(),
{
    if d.len() > 0 {
        assert((z + d).drop_last() =~= z + d.drop_last());
        lemma_leading_zeros_value(z, d.drop_last());
    } else if z.len() > 0 {
        assert((z + d).drop_last() =~= z.drop_last() + d);
        assert(z.drop_last() + d =~= z.drop_last());
        lemma_leading_zeros_value(z.drop_last(), d);
        assert(z.drop_last() + d =~= z.drop_last());
    } else {
        assert(z + d =~= d);
    }
}

// ---------------------------------------------------------------------
// Capitalisation
// ---------------------------------------------------------------------

/// The text with its first character upper-cased (as `char::to_uppercase`
/// maps it, possibly to several characters) and the rest unchanged.
pub open spec fn spec_uppercase_first_letter(s: Seq<char>) -> Seq<char> {
    if s.len() == 0 {
        Seq::empty()
    } else {
        spec_char_uppercase(s[0]) + s.drop_first()
    }
}

pub fn uppercase_first_letter(s: &str) -> (r: String)
    ensures
        r@ == spec_uppercase_first_letter(s@),
{
    let chars = chars_of(s);
    if chars.len() == 0 {
        return String::new();
    }
    let mut r = char_to_uppercase(chars[0]);
    let mut i: usize = 1;
    while i < chars.len()
        invariant
            chars@ == s@,
            1 <= i <= chars.len(),
            r@ == spec_char_uppercase(s@[0]) + s@.subrange(1, i as int),
        decreases chars.len() - i,
    {
        push_char(&mut r, chars[i]);
        i = i + 1;
        assert(r@ =~= spec_char_uppercase(s@[0]) + s@.subrange(1, i as int));
    }
    assert(s@.subrange(1, chars.len() as int) =~= s@.drop_first());
    r
}

} // verus!
