use orion::Unit;

#[test]
fn test_unit_from_str() {
    assert!(Unit::from_str("V").is_ok());
    assert!(Unit::from_str("\u{3a9}").is_ok());
    assert!(Unit::from_str("A").is_ok());
    assert!(Unit::from_str("W").is_ok());
    assert!(Unit::from_str("K").is_ok());
    assert!(Unit::from_str("s").is_ok());
    assert!(Unit::from_str("kg").is_ok());

    assert!(Unit::from_str("[V]").is_err());
    assert!(Unit::from_str("super_unit").is_err());
    assert!(Unit::from_str("cars").is_err());
}

#[test]
fn test_unit_to_string() {
    // to_string renders the canonical symbol
    assert_eq!(Unit::Volt.to_string(), "V");
    assert_eq!(Unit::Ohm.to_string(), "\u{3a9}");
    assert_eq!(Unit::Ampere.to_string(), "A");
    assert_eq!(Unit::Watt.to_string(), "W");
    assert_eq!(Unit::Kelvin.to_string(), "K");
    assert_eq!(Unit::Second.to_string(), "s");
    assert_eq!(Unit::Kilogram.to_string(), "kg");
}

#[test]
fn unit_round_trip() {
    let units = vec![
        Unit::Volt,
        Unit::Ohm,
        Unit::Ampere,
        Unit::Watt,
        Unit::Kelvin,
        Unit::Second,
        Unit::Kilogram,
    ];
    for u in units {
        let text = u.to_string();
        assert_eq!(Unit::from_str(&text).unwrap(), u);
    }
}

#[test]
fn unit_exact_symbol_only() {
    // Exact match only: no long names, no case folding, no whitespace.
    assert_eq!(Unit::from_str("V").unwrap(), Unit::Volt);
    assert!(Unit::from_str("Volt").is_err());
    assert!(Unit::from_str("v").is_err());
    assert!(Unit::from_str(" V").is_err());
    assert!(Unit::from_str("").is_err());
    let err = Unit::from_str("cars").unwrap_err();
    assert_eq!(err.description(), "Invalid format or unit");
}
