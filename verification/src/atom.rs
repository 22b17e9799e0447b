//! Atoms: the typed values alias definitions are written in, such as
//! `[MONEY:10;usd]` or `[TIME:3600]`. A pattern captures the kind and the
//! data of an atom; this module reads the data as the kind says.
use vstd::prelude::*;
use crate::number::{parse_radix, spec_from_str_radix};
use crate::text::{chars_of, push_char, text_eq};

verus! {

/// How `str::parse::<u32>` reads a text: an optional `+`, then at least one
/// decimal digit and nothing else, with a value that fits.
pub open spec fn spec_parse_u32(s: Seq<char>) -> Option<int> {
    if s.len() > 0 && s[0] == '-' {
        None
    } else {
        match spec_from_str_radix(s, 10) {
            Some(v) => if 0 <= v <= u32::MAX { Some(v) } else { None },
            None => None,
        }
    }
}

/// Reads a `u32` as `str::parse::<u32>` does.
pub fn parse_u32(s: &str) -> (r: Option<u32>)
    ensures
        match r {
            Some(v) => spec_parse_u32(s@) == Some(v as int),
            None => spec_parse_u32(s@) is None,
        },
{
    let chars = chars_of(s);
    if chars.len() > 0 && chars[0] == '-' {
        return None;
    }
    match parse_radix(s, 10) {
        Some(v) => if 0 <= v && v <= 4294967295 { Some(v as u32) } else { None },
        None => None,
    }
}

/// Where the first `c` stands in `s` from position `from` on, or the length
/// of `s` when there is none.
pub open spec fn spec_find_char(s: Seq<char>, c: char, from: int) -> int
    decreases s.len() - from,
{
    if from < 0 || from >= s.len() {
        s.len() as int
    } else if s[from] == c {
        from
    } else {
        spec_find_char(s, c, from + 1)
    }
}

proof fn lemma_find_char_bounds(s: Seq<char>, c: char, from: int)
    requires
        0 <= from <= s.len(),
    ensures
        from <= spec_find_char(s, c, from) <= s.len(),
        spec_find_char(s, c, from) < s.len() ==> s[spec_find_char(s, c, from)] == c,
        forall|k: int| from <= k < spec_find_char(s, c, from) ==> s[k] != c,
    decreases s.len() - from,
{
    if from < s.len() && s[from] != c {
        lemma_find_char_bounds(s, c, from + 1);
    }
}

fn find_char(chars: &Vec<char>, c: char, from: usize) -> (r: usize)
    requires
        from <= chars@.len(),
    ensures
        r == spec_find_char(chars@, c, from as int),
{
    let mut k: usize = from;
    while k < chars.len()
        invariant
            from <= k <= chars@.len(),
            spec_find_char(chars@, c, from as int) == spec_find_char(chars@, c, k as int),
        decreases chars@.len() - k,
    {
        if chars[k] == c {
            return k;
        }
        k = k + 1;
    }
    k
}

fn text_between(chars: &Vec<char>, start: usize, end: usize) -> (r: String)
    requires
        start <= end <= chars@.len(),
    ensures
        r@ == chars@.subrange(start as int, end as int),
{
    let mut r = String::new();
    let mut k: usize = start;
    while k < end
        invariant
            start <= k <= end <= chars@.len(),
            r@ == chars@.subrange(start as int, k as int),
        decreases end - k,
    {
        push_char(&mut r, chars[k]);
        k = k + 1;
        assert(r@ =~= chars@.subrange(start as int, k as int));
    }
    r
}

/// How the data of an atom reads.
pub enum AtomReading {
    /// A time of day, in seconds since midnight.
    Time(u32),
    /// An amount, as written, and the code of its currency.
    Money(String, String),
    /// A number, as written.
    Number(String),
    /// A percentage, as written.
    Percent(String),
    /// An operator.
    Operator(char),
    /// A kind of atom that does not exist.
    Unknown,
}

/// The amount of a money atom: its data up to the first `;`.
pub open spec fn spec_money_amount(data: Seq<char>) -> Seq<char> {
    data.subrange(0, spec_find_char(data, ';', 0))
}

/// The currency of a money atom: its data between the first `;` and the
/// next one, or the end.
pub open spec fn spec_money_currency(data: Seq<char>) -> Seq<char> {
    let first = spec_find_char(data, ';', 0);
    data.subrange(first + 1, spec_find_char(data, ';', first + 1))
}

/// Reads the data of an atom of a kind: `TIME` as seconds, `MONEY` as an
/// amount and a currency code split at `;`, `NUMBER` and `PERCENT` as the
/// number's text, `OPERATOR` as its first character. `None` when the data
/// does not read as its kind says: seconds that are not a `u32`, money
/// without `;`, an empty operator.
pub fn read_atom(atom_type: &str, data: &str) -> (r: Option<AtomReading>)
    ensures
        atom_type@ == "TIME"@ ==> match spec_parse_u32(data@) {
            Some(v) => r == Some(AtomReading::Time(v as u32)),
            None => r is None,
        },
        atom_type@ == "MONEY"@ ==> if spec_find_char(data@, ';', 0) < data@.len() {
            &&& r matches Some(AtomReading::Money(amount, code))
            &&& amount@ == spec_money_amount(data@)
            &&& code@ == spec_money_currency(data@)
        } else {
            r is None
        },
        atom_type@ == "NUMBER"@ ==> (r matches Some(AtomReading::Number(t)) && t@ == data@),
        atom_type@ == "PERCENT"@ ==> (r matches Some(AtomReading::Percent(t)) && t@ == data@),
        atom_type@ == "OPERATOR"@ ==> if data@.len() > 0 {
            r == Some(AtomReading::Operator(data@[0]))
        } else {
            r is None
        },
        atom_type@ != "TIME"@ && atom_type@ != "MONEY"@ && atom_type@ != "NUMBER"@ && atom_type@ != "PERCENT"@
            && atom_type@ != "OPERATOR"@ ==> r == Some(AtomReading::Unknown),
{
    proof {
        reveal_strlit("TIME");
        reveal_strlit("MONEY");
        reveal_strlit("NUMBER");
        reveal_strlit("PERCENT");
        reveal_strlit("OPERATOR");
        assert("TIME"@.len() == 4 && "MONEY"@.len() == 5 && "NUMBER"@.len() == 6 && "PERCENT"@.len() == 7 && "OPERATOR"@.len() == 8);
    }
    if text_eq(atom_type, "TIME") {
        match parse_u32(data) {
            Some(seconds) => Some(AtomReading::Time(seconds)),
            None => None,
        }
    } else if text_eq(atom_type, "MONEY") {
        let chars = chars_of(data);
        let first = find_char(&chars, ';', 0);
        proof {
            lemma_find_char_bounds(chars@, ';', 0);
        }
        if first >= chars.len() {
            return None;
        }
        let second = find_char(&chars, ';', first + 1);
        proof {
            lemma_find_char_bounds(chars@, ';', first + 1);
        }
        let amount = text_between(&chars, 0, first);
        let code = text_between(&chars, first + 1, second);
        Some(AtomReading::Money(amount, code))
    } else if text_eq(atom_type, "NUMBER") {
        Some(AtomReading::Number(String::from_str(data)))
    } else if text_eq(atom_type, "PERCENT") {
        Some(AtomReading::Percent(String::from_str(data)))
    } else if text_eq(atom_type, "OPERATOR") {
        let chars = chars_of(data);
        if chars.len() > 0 {
            Some(AtomReading::Operator(chars[0]))
        } else {
            None
        }
    } else {
        Some(AtomReading::Unknown)
    }
}

} // verus!
