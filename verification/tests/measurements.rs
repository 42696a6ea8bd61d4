use orion::Measurement;
use orion::ParseMeasurementError;
use orion::Unit;

#[test]
fn measurement_from_str() {
    assert!(Measurement::from_str("3[V]").is_ok());
    assert!(Measurement::from_str("4.67[kg]").is_ok());
    assert!(Measurement::from_str("-117[A]").is_ok());
    assert!(Measurement::from_str("-185753.457568657[W]").is_ok());
    assert!(Measurement::from_str("4645765.454567554[\u{3a9}]").is_ok());

    let err_fmt = match Measurement::from_str("") {
        Err(x) => x,
        Ok(_) => unreachable!(),
    };
    assert_eq!(err_fmt.description(), "Invalid format");

    let err_fmt = match Measurement::from_str("value[V]") {
        Err(x) => x,
        Ok(_) => unreachable!(),
    };
    assert_eq!(err_fmt.description(), "Invalid value");

    let err_fmt = match Measurement::from_str("4.4[cars]") {
        Err(x) => x,
        Ok(_) => unreachable!(),
    };
    assert_eq!(err_fmt.description(), "Invalid unit");
}

#[test]
fn measurement_to_string() {
    // to_string renders the canonical value and the unit symbol
    assert_eq!("3[V]", Measurement::new(&3.0f32.to_string(), Unit::Volt).unwrap().to_string());
    assert_eq!(
        "1.1234[A]",
        Measurement::new(&1.1234f32.to_string(), Unit::Ampere).unwrap().to_string()
    );
    assert_eq!(
        "-124[kg]",
        Measurement::new(&(-124.0f32).to_string(), Unit::Kilogram).unwrap().to_string()
    );
    assert_eq!(
        "-12.2[s]",
        Measurement::new(&(-12.2f32).to_string(), Unit::Second).unwrap().to_string()
    );
}

#[test]
fn measurement_parse_scenario() {
    let m = Measurement::from_str("3.0[V]").unwrap();
    assert_eq!(m.get_value(), "3");
    assert_eq!(m.get_unit(), Unit::Volt);

    // "4x4" matches the bracket shape but is not numeric: the value check
    // fails before the unit check.
    let err = Measurement::from_str("4x4[Car]").unwrap_err();
    assert!(matches!(err, ParseMeasurementError::InvalidValue(_)));
}

#[test]
fn measurement_error_order() {
    // format first, then value, then unit
    assert!(matches!(
        Measurement::from_str("3[V"),
        Err(ParseMeasurementError::InvalidFormat)
    ));
    assert!(matches!(
        Measurement::from_str("x[y]"),
        Err(ParseMeasurementError::InvalidValue(_))
    ));
    assert!(matches!(
        Measurement::from_str("3[y]"),
        Err(ParseMeasurementError::InvalidUnit(_))
    ));
    assert!(matches!(
        Measurement::from_str("]3[V]"),
        Err(ParseMeasurementError::InvalidFormat)
    ));
    assert!(matches!(
        Measurement::from_str("3[V]x"),
        Err(ParseMeasurementError::InvalidFormat)
    ));
}

#[test]
fn measurement_value_canonicalization() {
    let cases = [
        ("3.0", "3"),
        ("3.50", "3.5"),
        ("3.", "3"),
        (".5", "0.5"),
        ("+3", "3"),
        ("-5", "-5"),
        ("-0.0", "-0"),
        ("0.000", "0"),
        ("1e5", "1e5"),
        ("inf", "inf"),
        ("NaN", "NaN"),
    ];
    for (given, canonical) in cases {
        let m = Measurement::new(given, Unit::Volt).unwrap();
        assert_eq!(m.get_value(), canonical);
    }
    assert!(Measurement::new("", Unit::Volt).is_none());
    assert!(Measurement::new("4x4", Unit::Volt).is_none());
    assert!(Measurement::new(".", Unit::Volt).is_none());
    assert!(Measurement::new("3e", Unit::Volt).is_none());
    assert!(Measurement::new("3 ", Unit::Volt).is_none());
}

#[test]
fn measurement_round_trip() {
    for text in ["3[V]", "-12.2[s]", "1.1234[A]", "3.0[V]", "inf[W]", "4.67[kg]"] {
        let m = Measurement::from_str(text).unwrap();
        let rendered = m.to_string();
        let back = Measurement::from_str(&rendered).unwrap();
        assert_eq!(back.get_value(), m.get_value());
        assert_eq!(back.get_unit(), m.get_unit());
        assert_eq!(back.to_string(), rendered);
    }
}
