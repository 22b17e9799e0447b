use smartcalc::constants::ConstantType;
use smartcalc::tables::{constant_table, currency_table, kept_conversions, month_table, UnitRef};
use smartcalc::types::CurrencyInfo;

fn named(entries: &[(&str, u8)]) -> Vec<(String, u8)> {
    entries.iter().map(|(name, number)| (name.to_string(), *number)).collect()
}

#[test]
fn months_take_the_last_name_given_to_their_number() {
    let long = named(&[("january", 1), ("february", 2), ("febru", 2), ("nomonth", 13), ("zero", 0)]);
    let short = named(&[("jan", 1), ("dec", 12)]);
    let table = month_table(&long, &short);
    assert_eq!(table.len(), 12);
    assert_eq!((table[0].month, table[0].long.as_str(), table[0].short.as_str()), (1, "january", "jan"));
    assert_eq!((table[1].month, table[1].long.as_str(), table[1].short.as_str()), (2, "febru", ""));
    assert_eq!((table[11].month, table[11].long.as_str(), table[11].short.as_str()), (12, "", "dec"));
}

#[test]
fn currencies_are_keyed_in_lower_case() {
    let usd = CurrencyInfo {
        code: "USD".to_string(),
        symbol: "$".to_string(),
        thousands_separator: ",".to_string(),
        decimal_separator: ".".to_string(),
        symbol_on_left: true,
        space_between_amount_and_symbol: false,
        decimal_digits: 2,
    };
    let table = currency_table(&vec![("USD".to_string(), usd)]);
    assert_eq!(table.len(), 1);
    assert_eq!(table[0].0, "usd");
    assert_eq!(table[0].1.symbol, "$");
}

#[test]
fn constant_words_keep_the_numbers_that_name_a_constant() {
    let table = constant_table(&named(&[("today", 8), ("bogus", 0), ("now", 11), ("later", 12)]));
    assert_eq!(table.len(), 2);
    assert_eq!(table[0].0, "today");
    assert_eq!(table[0].1, ConstantType::Today);
    assert_eq!(table[1].0, "now");
    assert_eq!(table[1].1, ConstantType::Now);
}

fn unit(name: &str, index: usize) -> UnitRef {
    UnitRef { name: name.to_string(), index }
}

#[test]
fn conversions_are_kept_when_both_units_exist() {
    let units = vec![("length".to_string(), vec![1, 2]), ("mass".to_string(), vec![1])];
    let conversions = vec![
        (unit("length", 1), unit("mass", 1)),
        (unit("length", 3), unit("mass", 1)),
        (unit("volume", 1), unit("mass", 1)),
        (unit("mass", 1), unit("length", 2)),
    ];
    assert_eq!(kept_conversions(&units, &conversions), vec![0, 3]);
}
