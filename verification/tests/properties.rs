//! Concrete round-trip and stability checks across the whole library.

use orion::Device;
use orion::Measurement;
use orion::MeasurementsList;
use orion::Unit;

#[test]
fn device_parts_round_trip() {
    let cases = [
        ("port", "node", "driver"),
        ("PORT-10", "node_2", "drivers1"),
        ("a", "b", ""),
        ("", "", ""),
        ("temp1", "core-isa-000", "lm-sensors"),
    ];
    for (p, n, d) in cases {
        let dev = Device::new(p, n, d).unwrap();
        let back = Device::with_slug(dev.get_slug()).unwrap();
        assert_eq!(back.get_port(), p);
        assert_eq!(back.get_node(), n);
        assert_eq!(back.get_driver(), d);
    }
}

#[test]
fn measurement_format_parse_round_trip() {
    let m = Measurement::new("42.5", Unit::Kelvin).unwrap();
    let back = Measurement::from_str(&m.to_string()).unwrap();
    assert_eq!(back.get_value(), m.get_value());
    assert_eq!(back.get_unit(), m.get_unit());
}

#[test]
fn list_format_parse_round_trip() {
    let list = MeasurementsList::from_str("3.0[V] -5[A] 2.25[kg]").unwrap();
    let text = list.to_string();
    let back = MeasurementsList::from_str(&text).unwrap();
    assert_eq!(back.len(), list.len());
    for i in 0..list.len() {
        assert_eq!(back.get(i).get_value(), list.get(i).get_value());
        assert_eq!(back.get(i).get_unit(), list.get(i).get_unit());
    }
}

#[test]
fn list_format_is_stable_under_reparsing() {
    for input in ["3.0[V] -5[A]", "3[V]", "0.50[W] +2[K] .5[s]", "inf[A] NaN[V]"] {
        let once = MeasurementsList::from_str(input).unwrap().to_string();
        let twice = MeasurementsList::from_str(&once).unwrap().to_string();
        assert_eq!(twice, once);
    }
}
