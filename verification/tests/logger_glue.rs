use orion::AddError;
use orion::Args;
use orion::Command;
use orion::MeasurementPoint;
use orion::MeasurementsList;
use orion::OrionLoggerValidator;
use orion::add_request;
use orion::create_line_for;
use orion::data_file_path;
use orion::get_command;
use orion::server_reply;
use orion::Device;

fn args_with(cmd_add: bool, cmd_server: bool) -> Args {
    Args {
        cmd_server,
        cmd_add,
        cmd_start: false,
        cmd_stop: false,
        arg_device: String::new(),
        arg_value: String::new(),
        flag_timestamp: String::new(),
        flag_now: false,
        flag_verbose: false,
        flag_help: false,
        flag_version: false,
        flag_debug: false,
    }
}

#[test]
fn command_selection() {
    assert_eq!(get_command(&args_with(true, false)), Command::Add);
    assert_eq!(get_command(&args_with(true, true)), Command::Add);
    assert_eq!(get_command(&args_with(false, true)), Command::Server);
    assert_eq!(get_command(&args_with(false, false)), Command::Default);
}

#[test]
fn timestamp_validation() {
    assert!("1985-04-12T23:20:50.52Z".to_string().is_RFC3339_timestamp());
    assert!("1996-12-19T16:39:57-08:00".to_string().is_RFC3339_timestamp());
    assert!(!"not a timestamp".to_string().is_RFC3339_timestamp());
    assert!(!"1985-04-12".to_string().is_RFC3339_timestamp());
    assert!(!"".to_string().is_RFC3339_timestamp());
}

#[test]
fn add_request_decides_in_order() {
    // a bad explicit timestamp comes first
    assert_eq!(
        add_request("port@node.driver", "3[V]", "yesterday").unwrap_err(),
        AddError::InvalidTimestamp
    );
    // an empty timestamp means "use the current time" and is not checked
    assert!(add_request("port@node.driver", "3[V]", "").is_ok());
    // then the value text
    assert_eq!(
        add_request("port@node.driver", "volts", "").unwrap_err(),
        AddError::InvalidValue
    );
    assert_eq!(
        add_request("bad slug", "volts", "").unwrap_err(),
        AddError::InvalidValue
    );
    // then the device slug
    assert_eq!(
        add_request("bad slug", "3[V]", "").unwrap_err(),
        AddError::InvalidDevice
    );
    let (device, data) = add_request(
        "temp1@core-isa-000.lm-sensors",
        "3.0[V] -5[A]",
        "1985-04-12T23:20:50.52Z",
    )
    .unwrap();
    assert_eq!(device.get_driver(), "lm-sensors");
    assert_eq!(data.to_string(), "3[V] -5[A]");
}

#[test]
fn log_line_layout() {
    let (device, data) = add_request("port@node.driver", "3.0[V] -5[A]", "").unwrap();
    let mp = MeasurementPoint {
        timestamp: "1985-04-12T23:20:50.52+00:00".to_string(),
        device,
        data,
    };
    assert_eq!(create_line_for(&mp), "1985-04-12T23:20:50.52+00:00 3[V] -5[A]\n");
}

#[test]
fn data_file_path_layout() {
    let device = Device::with_slug("port@node.driver").unwrap();
    let path = data_file_path("/tmp/data", &device, 2015, 7, 4);
    assert_eq!(path, "/tmp/data/driver/node/port/2015/7/4/data.txt");
    let old = data_file_path("base", &device, -44, 12, 31);
    assert_eq!(old, "base/driver/node/port/-44/12/31/data.txt");
}

#[test]
fn empty_list_line() {
    let mp = MeasurementPoint {
        timestamp: "2015-01-01T00:00:00+00:00".to_string(),
        device: Device::with_slug("p@n.d").unwrap(),
        data: MeasurementsList::new(),
    };
    assert_eq!(create_line_for(&mp), "2015-01-01T00:00:00+00:00 \n");
}

#[test]
fn server_reply_protocol() {
    let (reply, stop) = server_reply("LOGGER/1.0 STOP", 7);
    assert!(stop);
    assert_eq!(reply, "LOGGER/1.0 OK");

    let (reply, stop) = server_reply("Request #3", 3);
    assert!(!stop);
    assert_eq!(reply, "Request #3 -> Reply #3");

    let (reply, stop) = server_reply("", 12045);
    assert!(!stop);
    assert_eq!(reply, " -> Reply #12045");
}
