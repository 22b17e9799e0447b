//! Reading the fields of rule patterns, such as `{NUMBER:value}`, and the
//! currencies a word may name.
use vstd::prelude::*;
use crate::types::{FieldType, CurrencyInfo, copy_strings, copy_opt_string};
use crate::text::{text_eq, to_lowercase, spec_lowercase};

verus! {

/// The first entry of a keyed list with the given key.
pub open spec fn spec_find_key<T>(entries: Seq<(String, T)>, key: Seq<char>) -> Option<int>
    decreases entries.len(),
{
    if entries.len() == 0 {
        None
    } else {
        match spec_find_key(entries.drop_last(), key) {
            Some(k) => Some(k),
            None => if entries.last().0@ == key { Some(entries.len() - 1) } else { None },
        }
    }
}

proof fn lemma_find_key_prefix<T>(entries: Seq<(String, T)>, key: Seq<char>, n: int, m: int)
    requires
        0 < n <= m <= entries.len(),
        spec_find_key(entries.take(n - 1), key) is None,
        entries[n - 1].0@ == key,
    ensures
        spec_find_key(entries.take(m), key) == Some(n - 1),
    decreases m,
{
    assert(entries.take(m).drop_last() =~= entries.take(m - 1));
    if m > n {
        lemma_find_key_prefix(entries, key, n, m - 1);
    }
}

/// The place of the first entry with the given key.
pub fn find_key<T>(entries: &Vec<(String, T)>, key: &str) -> (r: Option<usize>)
    ensures
        r matches Some(k) ==> spec_find_key(entries@, key@) == Some(k as int) && k < entries@.len(),
        r is None ==> spec_find_key(entries@, key@) is None,
{
    let mut k: usize = 0;
    while k < entries.len()
        invariant
            k <= entries@.len(),
            spec_find_key(entries@.take(k as int), key@) is None,
        decreases entries@.len() - k,
    {
        assert(entries@.take(k + 1).drop_last() =~= entries@.take(k as int));
        if text_eq(entries[k].0.as_str(), key) {
            proof {
                lemma_find_key_prefix(entries@, key@, k as int + 1, entries@.len() as int);
                assert(entries@.take(entries@.len() as int) =~= entries@);
            }
            return Some(k);
        }
        k = k + 1;
    }
    assert(entries@.take(k as int) =~= entries@);
    None
}

/// The kinds of field a pattern names by a fixed type name.
pub open spec fn is_fixed_field_type(kind_name: Seq<char>) -> bool {
    ||| kind_name == "DATE_TIME"@
    ||| kind_name == "DATE"@
    ||| kind_name == "TIME"@
    ||| kind_name == "NUMBER"@
    ||| kind_name == "MONEY"@
    ||| kind_name == "PERCENT"@
    ||| kind_name == "MONTH"@
    ||| kind_name == "TIMEZONE"@
    ||| kind_name == "DURATION"@
    ||| kind_name == "DYNAMIC_TYPE"@
    ||| kind_name == "TEXT"@
}

/// The word group a `GROUP` field names: its extra text, or the empty name.
pub open spec fn spec_group_name(extra: Option<String>) -> Seq<char> {
    match extra {
        Some(e) => e@,
        None => Seq::empty(),
    }
}

/// Whether a pattern's field type names a field: a fixed kind, a word group
/// that `word_groups` has, or a group of kinds that `type_groups` has.
pub open spec fn spec_field_type_known(
    word_groups: Seq<(String, Vec<String>)>,
    type_groups: Seq<(String, Vec<String>)>,
    kind_name: Seq<char>,
    extra: Option<String>,
) -> bool {
    if is_fixed_field_type(kind_name) {
        true
    } else if kind_name == "GROUP"@ {
        spec_find_key(word_groups, spec_group_name(extra)) is Some
    } else {
        spec_find_key(type_groups, kind_name) is Some
    }
}

/// The field a pattern names by its type, with the name `value`: the fixed
/// kinds by their names; texts and dynamic types with what the pattern
/// expects of them, when it says; word groups with the words of the group
/// the pattern names; any other type with the kinds of its group of kinds.
pub open spec fn spec_is_field_type(
    f: FieldType,
    word_groups: Seq<(String, Vec<String>)>,
    type_groups: Seq<(String, Vec<String>)>,
    kind_name: Seq<char>,
    value: Seq<char>,
    extra: Option<String>,
) -> bool {
    if kind_name == "DATE_TIME"@ {
        f matches FieldType::DateTime(n) && n@ == value
    } else if kind_name == "DATE"@ {
        f matches FieldType::Date(n) && n@ == value
    } else if kind_name == "TIME"@ {
        f matches FieldType::Time(n) && n@ == value
    } else if kind_name == "NUMBER"@ {
        f matches FieldType::Number(n) && n@ == value
    } else if kind_name == "MONEY"@ {
        f matches FieldType::Money(n) && n@ == value
    } else if kind_name == "PERCENT"@ {
        f matches FieldType::Percent(n) && n@ == value
    } else if kind_name == "MONTH"@ {
        f matches FieldType::Month(n) && n@ == value
    } else if kind_name == "TIMEZONE"@ {
        f matches FieldType::Timezone(n) && n@ == value
    } else if kind_name == "DURATION"@ {
        f matches FieldType::Duration(n) && n@ == value
    } else if kind_name == "DYNAMIC_TYPE"@ {
        f matches FieldType::DynamicType(n, e) && n@ == value && e == extra
    } else if kind_name == "TEXT"@ {
        f matches FieldType::Text(n, e) && n@ == value && e == extra
    } else if kind_name == "GROUP"@ {
        f matches FieldType::Group(n, items) && n@ == value
            && items@ == word_groups[spec_find_key(word_groups, spec_group_name(extra))->Some_0].1@
    } else {
        f matches FieldType::TypeGroup(kinds, n) && n@ == value
            && kinds@ == type_groups[spec_find_key(type_groups, kind_name)->Some_0].1@
    }
}

/// The text of an optional string.
pub open spec fn option_text(o: Option<String>) -> Option<Seq<char>> {
    match o {
        Some(s) => Some(s@),
        None => None,
    }
}

/// The word group a `GROUP` field names, from the text of its extra part.
pub open spec fn spec_group_name_text(extra: Option<Seq<char>>) -> Seq<char> {
    match extra {
        Some(e) => e,
        None => Seq::empty(),
    }
}

/// `spec_field_type_known`, over the text of the extra part.
pub open spec fn spec_field_type_known_text(
    word_groups: Seq<(String, Vec<String>)>,
    type_groups: Seq<(String, Vec<String>)>,
    kind_name: Seq<char>,
    extra: Option<Seq<char>>,
) -> bool {
    if is_fixed_field_type(kind_name) {
        true
    } else if kind_name == "GROUP"@ {
        spec_find_key(word_groups, spec_group_name_text(extra)) is Some
    } else {
        spec_find_key(type_groups, kind_name) is Some
    }
}

/// `spec_is_field_type`, over the text of the extra part: texts and dynamic
/// types carry an extra part with that text.
pub open spec fn spec_is_field_type_text(
    f: FieldType,
    word_groups: Seq<(String, Vec<String>)>,
    type_groups: Seq<(String, Vec<String>)>,
    kind_name: Seq<char>,
    value: Seq<char>,
    extra: Option<Seq<char>>,
) -> bool {
    if kind_name == "DATE_TIME"@ {
        f matches FieldType::DateTime(n) && n@ == value
    } else if kind_name == "DATE"@ {
        f matches FieldType::Date(n) && n@ == value
    } else if kind_name == "TIME"@ {
        f matches FieldType::Time(n) && n@ == value
    } else if kind_name == "NUMBER"@ {
        f matches FieldType::Number(n) && n@ == value
    } else if kind_name == "MONEY"@ {
        f matches FieldType::Money(n) && n@ == value
    } else if kind_name == "PERCENT"@ {
        f matches FieldType::Percent(n) && n@ == value
    } else if kind_name == "MONTH"@ {
        f matches FieldType::Month(n) && n@ == value
    } else if kind_name == "TIMEZONE"@ {
        f matches FieldType::Timezone(n) && n@ == value
    } else if kind_name == "DURATION"@ {
        f matches FieldType::Duration(n) && n@ == value
    } else if kind_name == "DYNAMIC_TYPE"@ {
        f matches FieldType::DynamicType(n, e) && n@ == value && option_text(e) == extra
    } else if kind_name == "TEXT"@ {
        f matches FieldType::Text(n, e) && n@ == value && option_text(e) == extra
    } else if kind_name == "GROUP"@ {
        f matches FieldType::Group(n, items) && n@ == value
            && items@ == word_groups[spec_find_key(word_groups, spec_group_name_text(extra))->Some_0].1@
    } else {
        f matches FieldType::TypeGroup(kinds, n) && n@ == value
            && kinds@ == type_groups[spec_find_key(type_groups, kind_name)->Some_0].1@
    }
}

/// The field specs over a string's text say what they say over the string.
pub proof fn lemma_field_type_texts(
    f: FieldType,
    word_groups: Seq<(String, Vec<String>)>,
    type_groups: Seq<(String, Vec<String>)>,
    kind_name: Seq<char>,
    value: Seq<char>,
    extra: Option<String>,
)
    ensures
        spec_field_type_known(word_groups, type_groups, kind_name, extra)
            == spec_field_type_known_text(word_groups, type_groups, kind_name, option_text(extra)),
        spec_is_field_type(f, word_groups, type_groups, kind_name, value, extra)
            ==> spec_is_field_type_text(f, word_groups, type_groups, kind_name, value, option_text(extra)),
{
    assert(spec_group_name(extra) == spec_group_name_text(option_text(extra)));
}

/// The field a pattern names by its type.
pub fn get_field_type(
    word_groups: &Vec<(String, Vec<String>)>,
    type_groups: &Vec<(String, Vec<String>)>,
    kind_name: &str,
    value: &str,
    extra: &Option<String>,
) -> (r: Option<FieldType>)
    ensures
        r is Some <==> spec_field_type_known(word_groups@, type_groups@, kind_name@, *extra),
        r matches Some(f) ==> spec_is_field_type(f, word_groups@, type_groups@, kind_name@, value@, *extra),
{
    proof {
        reveal_strlit("DATE_TIME");
        reveal_strlit("DATE");
        reveal_strlit("TIME");
        reveal_strlit("NUMBER");
        reveal_strlit("MONEY");
        reveal_strlit("PERCENT");
        reveal_strlit("MONTH");
        reveal_strlit("TIMEZONE");
        reveal_strlit("DURATION");
        reveal_strlit("DYNAMIC_TYPE");
        reveal_strlit("TEXT");
        reveal_strlit("GROUP");
    }
    let name = String::from_str(value);
    if text_eq(kind_name, "DATE_TIME") {
        Some(FieldType::DateTime(name))
    } else if text_eq(kind_name, "DATE") {
        Some(FieldType::Date(name))
    } else if text_eq(kind_name, "TIME") {
        Some(FieldType::Time(name))
    } else if text_eq(kind_name, "NUMBER") {
        Some(FieldType::Number(name))
    } else if text_eq(kind_name, "MONEY") {
        Some(FieldType::Money(name))
    } else if text_eq(kind_name, "PERCENT") {
        Some(FieldType::Percent(name))
    } else if text_eq(kind_name, "MONTH") {
        Some(FieldType::Month(name))
    } else if text_eq(kind_name, "TIMEZONE") {
        Some(FieldType::Timezone(name))
    } else if text_eq(kind_name, "DURATION") {
        Some(FieldType::Duration(name))
    } else if text_eq(kind_name, "DYNAMIC_TYPE") {
        Some(FieldType::DynamicType(name, copy_opt_string(extra)))
    } else if text_eq(kind_name, "TEXT") {
        Some(FieldType::Text(name, copy_opt_string(extra)))
    } else if text_eq(kind_name, "GROUP") {
        let group = match extra {
            Some(e) => e.clone(),
            None => String::new(),
        };
        match find_key(word_groups, group.as_str()) {
            Some(k) => Some(FieldType::Group(name, copy_strings(&word_groups[k].1))),
            None => None,
        }
    } else {
        match find_key(type_groups, kind_name) {
            Some(k) => Some(FieldType::TypeGroup(copy_strings(&type_groups[k].1), name)),
            None => None,
        }
    }
}

/// The currency a word names: by an alias first, then by a currency code;
/// both are looked up in lower case.
pub fn read_currency(currency_alias: &Vec<(String, CurrencyInfo)>, currencies: &Vec<(String, CurrencyInfo)>, currency: &str) -> (r: Option<CurrencyInfo>)
    ensures
        match spec_find_key(currency_alias@, spec_lowercase(currency@)) {
            Some(k) => r == Some(currency_alias@[k].1),
            None => match spec_find_key(currencies@, spec_lowercase(currency@)) {
                Some(k) => r == Some(currencies@[k].1),
                None => r is None,
            },
        },
{
    let key = to_lowercase(currency);
    match find_key(currency_alias, key.as_str()) {
        Some(k) => Some(currency_alias[k].1.duplicate()),
        None => match find_key(currencies, key.as_str()) {
            Some(k) => Some(currencies[k].1.duplicate()),
            None => None,
        },
    }
}

} // verus!
