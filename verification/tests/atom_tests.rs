use smartcalc::atom::{parse_u32, read_atom, AtomReading};

#[test]
fn seconds_read_as_std_reads_a_u32() {
    assert_eq!(parse_u32("3600"), Some(3600));
    assert_eq!(parse_u32("+7"), Some(7));
    assert_eq!(parse_u32("4294967295"), Some(u32::MAX));
    for text in ["-0", "-1", "", "+", "4294967296", "12a", " 1"] {
        assert_eq!(parse_u32(text), None);
        assert_eq!(parse_u32(text), text.parse::<u32>().ok());
    }
}

#[test]
fn atoms_read_as_their_kind_says() {
    assert!(matches!(read_atom("TIME", "3600"), Some(AtomReading::Time(3600))));
    assert!(read_atom("TIME", "noon").is_none());
    match read_atom("MONEY", "10.5;usd") {
        Some(AtomReading::Money(amount, code)) => {
            assert_eq!(amount, "10.5");
            assert_eq!(code, "usd");
        },
        _ => panic!("money expected"),
    }
    match read_atom("MONEY", "1;eur;extra") {
        Some(AtomReading::Money(amount, code)) => {
            assert_eq!(amount, "1");
            assert_eq!(code, "eur");
        },
        _ => panic!("money expected"),
    }
    assert!(read_atom("MONEY", "10").is_none());
    assert!(matches!(read_atom("NUMBER", "-2.5"), Some(AtomReading::Number(t)) if t == "-2.5"));
    assert!(matches!(read_atom("PERCENT", "12"), Some(AtomReading::Percent(t)) if t == "12"));
    assert!(matches!(read_atom("OPERATOR", "*x"), Some(AtomReading::Operator('*'))));
    assert!(read_atom("OPERATOR", "").is_none());
    assert!(matches!(read_atom("COLOR", "red"), Some(AtomReading::Unknown)));
    assert!(matches!(read_atom("time", "1"), Some(AtomReading::Unknown)));
}
