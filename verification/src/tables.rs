//! The tables a configuration is turned into: months by number, currencies
//! by lower-cased code, constants by word, and the unit conversions whose
//! units exist.
use vstd::prelude::*;
use crate::constants::{ConstantType, MonthInfo, spec_constant_from_u8};
use crate::types::CurrencyInfo;
use crate::text::{to_lowercase, spec_lowercase};
use crate::field::{find_key, spec_find_key};

verus! {

/// The name a list of `(name, number)` entries gives the month `month`: the
/// name of the last entry with that number, or the empty text.
pub open spec fn spec_month_name(entries: Seq<(String, u8)>, month: int) -> Seq<char>
    decreases entries.len(),
{
    if entries.len() == 0 {
        Seq::empty()
    } else if entries.last().1 as int == month {
        entries.last().0@
    } else {
        spec_month_name(entries.drop_last(), month)
    }
}

/// The name of a month from a list of entries read from the last one back.
fn month_name(entries: &Vec<(String, u8)>, month: u8) -> (r: String)
    ensures
        r@ == spec_month_name(entries@, month as int),
{
    let mut k: usize = entries.len();
    assert(entries@.take(k as int) =~= entries@);
    while k > 0
        invariant
            k <= entries@.len(),
            spec_month_name(entries@, month as int) == spec_month_name(entries@.take(k as int), month as int),
        decreases k,
    {
        assert(entries@.take(k as int).drop_last() =~= entries@.take(k - 1));
        if entries[k - 1].1 == month {
            return entries[k - 1].0.clone();
        }
        k = k - 1;
    }
    String::new()
}

/// The twelve months in order: each with its number, and the long and the
/// short name the lists give it. Entries with a number outside 1 to 12 name
/// no month; of two entries for one month the later wins.
pub fn month_table(long: &Vec<(String, u8)>, short: &Vec<(String, u8)>) -> (r: Vec<MonthInfo>)
    ensures
        r@.len() == 12,
        forall|i: int| 0 <= i < 12 ==> {
            &&& (#[trigger] r@[i]).month == i + 1
            &&& r@[i].long@ == spec_month_name(long@, i + 1)
            &&& r@[i].short@ == spec_month_name(short@, i + 1)
        },
{
    let mut r: Vec<MonthInfo> = Vec::new();
    let mut m: u8 = 1;
    while m <= 12
        invariant
            1 <= m <= 13,
            r@.len() == m - 1,
            forall|i: int| 0 <= i < m - 1 ==> {
                &&& (#[trigger] r@[i]).month == i + 1
                &&& r@[i].long@ == spec_month_name(long@, i + 1)
                &&& r@[i].short@ == spec_month_name(short@, i + 1)
            },
        decreases 13 - m,
    {
        let long_name = month_name(long, m);
        let short_name = month_name(short, m);
        r.push(MonthInfo { short: short_name, long: long_name, month: m });
        m = m + 1;
    }
    r
}

/// The currencies keyed by their code in lower case, in the same order.
pub fn currency_table(currencies: &Vec<(String, CurrencyInfo)>) -> (r: Vec<(String, CurrencyInfo)>)
    ensures
        r@.len() == currencies@.len(),
        forall|i: int| 0 <= i < r@.len() ==> {
            &&& (#[trigger] r@[i]).0@ == spec_lowercase(currencies@[i].0@)
            &&& r@[i].1 == currencies@[i].1
        },
{
    let mut r: Vec<(String, CurrencyInfo)> = Vec::new();
    let mut k: usize = 0;
    while k < currencies.len()
        invariant
            k <= currencies@.len(),
            r@.len() == k,
            forall|i: int| 0 <= i < k ==> {
                &&& (#[trigger] r@[i]).0@ == spec_lowercase(currencies@[i].0@)
                &&& r@[i].1 == currencies@[i].1
            },
        decreases currencies@.len() - k,
    {
        let key = to_lowercase(currencies[k].0.as_str());
        r.push((key, currencies[k].1.duplicate()));
        k = k + 1;
    }
    r
}

/// The constants a list of `(word, number)` entries names, in order: the
/// entries whose number names a constant, with that constant.
pub open spec fn spec_constant_table(pairs: Seq<(String, u8)>) -> Seq<(String, ConstantType)>
    decreases pairs.len(),
{
    if pairs.len() == 0 {
        Seq::empty()
    } else {
        let rest = spec_constant_table(pairs.drop_last());
        match spec_constant_from_u8(pairs.last().1) {
            Some(c) => rest.push((pairs.last().0, c)),
            None => rest,
        }
    }
}

/// The constants the entries name, dropping numbers that name none.
pub fn constant_table(pairs: &Vec<(String, u8)>) -> (r: Vec<(String, ConstantType)>)
    ensures
        r@ == spec_constant_table(pairs@),
{
    let mut r: Vec<(String, ConstantType)> = Vec::new();
    let mut k: usize = 0;
    while k < pairs.len()
        invariant
            k <= pairs@.len(),
            r@ == spec_constant_table(pairs@.take(k as int)),
        decreases pairs@.len() - k,
    {
        assert(pairs@.take(k + 1).drop_last() =~= pairs@.take(k as int));
        match ConstantType::from_u8(pairs[k].1) {
            Some(c) => {
                r.push((pairs[k].0.clone(), c));
            },
            None => {},
        }
        k = k + 1;
    }
    assert(pairs@.take(k as int) =~= pairs@);
    r
}

/// A unit of a family of units: the family's name and the unit's place.
pub struct UnitRef {
    pub name: String,
    pub index: usize,
}

/// Whether a family of the list has the unit.
pub open spec fn spec_has_unit(units: Seq<(String, Vec<usize>)>, unit: UnitRef) -> bool {
    match spec_find_key(units, unit.name@) {
        Some(k) => units[k].1@.contains(unit.index),
        None => false,
    }
}

/// The places of the conversions, in order, whose two units both exist.
pub open spec fn spec_kept_conversions(units: Seq<(String, Vec<usize>)>, conversions: Seq<(UnitRef, UnitRef)>) -> Seq<usize>
    decreases conversions.len(),
{
    if conversions.len() == 0 {
        Seq::empty()
    } else {
        let rest = spec_kept_conversions(units, conversions.drop_last());
        if spec_has_unit(units, conversions.last().0) && spec_has_unit(units, conversions.last().1) {
            rest.push((conversions.len() - 1) as usize)
        } else {
            rest
        }
    }
}

#[verifier::loop_isolation(false)]
fn has_unit(units: &Vec<(String, Vec<usize>)>, unit: &UnitRef) -> (r: bool)
    ensures
        r == spec_has_unit(units@, *unit),
{
    match find_key(units, unit.name.as_str()) {
        Some(k) => {
            let indexes = &units[k].1;
            assert(indexes@ == units@[k as int].1@);
            let mut i: usize = 0;
            while i < indexes.len()
                invariant
                    i <= indexes@.len(),
                    forall|j: int| 0 <= j < i ==> indexes@[j] != unit.index,
                decreases indexes@.len() - i,
            {
                if indexes[i] == unit.index {
                    assert(indexes@[i as int] == unit.index);
                    assert(indexes@.contains(unit.index));
                    return true;
                }
                i = i + 1;
            }
            assert(!indexes@.contains(unit.index));
            false
        },
        None => false,
    }
}

/// The places of the conversions whose source and target units both exist
/// among the families.
pub fn kept_conversions(units: &Vec<(String, Vec<usize>)>, conversions: &Vec<(UnitRef, UnitRef)>) -> (r: Vec<usize>)
    ensures
        r@ == spec_kept_conversions(units@, conversions@),
{
    let mut r: Vec<usize> = Vec::new();
    let mut k: usize = 0;
    while k < conversions.len()
        invariant
            k <= conversions@.len(),
            r@ == spec_kept_conversions(units@, conversions@.take(k as int)),
        decreases conversions@.len() - k,
    {
        let ghost prefix = conversions@.take(k + 1);
        assert(prefix.drop_last() =~= conversions@.take(k as int));
        assert(prefix.last() == conversions@[k as int]);
        if has_unit(units, &conversions[k].0) && has_unit(units, &conversions[k].1) {
            r.push(k);
        }
        k = k + 1;
    }
    assert(conversions@.take(k as int) =~= conversions@);
    r
}

} // verus!
