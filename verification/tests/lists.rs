use orion::MeasurementsList;
use orion::ParseMeasurementError;
use orion::ParseMeasurementsListError;
use orion::Unit;

#[test]
fn test_measurements_list_from_str() {
    assert!(MeasurementsList::from_str("3[V]").is_ok());
    assert!(MeasurementsList::from_str("4.67[kg] -465[A]").is_ok());
    assert!(MeasurementsList::from_str("-117[A] 33.334[W] -2[s]").is_ok());

    let err_fmt = match MeasurementsList::from_str("") {
        Err(x) => x,
        Ok(_) => unreachable!(),
    };
    assert_eq!(err_fmt.description(), "Invalid format");

    let err_fmt = match MeasurementsList::from_str("value[V]") {
        Err(x) => x,
        Ok(_) => unreachable!(),
    };
    assert_eq!(err_fmt.description(), "Invalid measurement");
}

#[test]
fn test_measurements_list_to_string() {
    // to_string joins the entries with single spaces
    assert_eq!("3[V]", MeasurementsList::from_str("3[V]").unwrap().to_string());
    assert_eq!("1.1[A] -3[V]", MeasurementsList::from_str("1.1[A] -3[V]").unwrap().to_string());
}

#[test]
fn list_parse_scenario() {
    // two entries, in order, and the rendering drops the trailing .0
    let list = MeasurementsList::from_str("3.0[V] -5[A]").unwrap();
    assert_eq!(list.len(), 2);
    assert_eq!(list.get(0).get_value(), "3");
    assert_eq!(list.get(0).get_unit(), Unit::Volt);
    assert_eq!(list.get(1).get_value(), "-5");
    assert_eq!(list.get(1).get_unit(), Unit::Ampere);
    assert_eq!(list.to_string(), "3[V] -5[A]");
}

#[test]
fn list_empty_input_is_invalid_format() {
    assert!(matches!(
        MeasurementsList::from_str(""),
        Err(ParseMeasurementsListError::InvalidFormat)
    ));
    assert!(matches!(
        MeasurementsList::from_str("3.0V 4A"),
        Err(ParseMeasurementsListError::InvalidFormat)
    ));
}

#[test]
fn list_bad_value_is_invalid_measurement() {
    // the loose pre-check passes, the per-token numeric parse fails
    let err = MeasurementsList::from_str("value[V]").unwrap_err();
    match &err {
        ParseMeasurementsListError::InvalidMeasurement(inner) => {
            assert!(matches!(inner, ParseMeasurementError::InvalidValue(_)));
        },
        _ => unreachable!(),
    }
    assert!(matches!(
        err.cause(),
        Some(ParseMeasurementError::InvalidValue(_))
    ));
    assert!(MeasurementsList::from_str("4x4[Car] 3[V]").is_err());
}

#[test]
fn list_stray_space_is_invalid_measurement() {
    // a leading, trailing or doubled space makes an empty token, which
    // fails measurement parsing with a format error
    for text in [" 3[V]", "3[V] ", "3[V]  -5[A]"] {
        let err = MeasurementsList::from_str(text).unwrap_err();
        match err.cause() {
            Some(inner) => assert!(matches!(inner, ParseMeasurementError::InvalidFormat)),
            None => unreachable!(),
        }
    }
}

#[test]
fn list_first_failing_token_decides() {
    // the second token fails on its unit, the third would fail on its value
    let err = MeasurementsList::from_str("3[V] 4[car] value[W]").unwrap_err();
    match err.cause() {
        Some(inner) => assert!(matches!(inner, ParseMeasurementError::InvalidUnit(_))),
        None => unreachable!(),
    }
}

#[test]
fn list_order_is_preserved() {
    let list = MeasurementsList::from_str("-117[A] 33.334[W] -2[s]").unwrap();
    assert_eq!(list.len(), 3);
    assert_eq!(list.get(0).get_unit(), Unit::Ampere);
    assert_eq!(list.get(1).get_unit(), Unit::Watt);
    assert_eq!(list.get(2).get_unit(), Unit::Second);
    assert_eq!(list.get(1).get_value(), "33.334");
}

#[test]
fn list_new_is_empty() {
    let list = MeasurementsList::new();
    assert_eq!(list.len(), 0);
    assert_eq!(list.to_string(), "");
}
