use orion::Device;

#[test]
fn test_device_new() {
    // Valid new device with A-Z
    let dev1 = Device::new("PORT", "NODE", "DRIVER");
    assert!(dev1.is_some());

    // Invalid new device
    let dev2 = Device::new("PORT-INV", "NODE@", "DRIVERS.");
    assert!(dev2.is_none());
}

#[test]
fn test_device_with_slug() {
    // Valid new device
    let dev1 = Device::with_slug("port@node.driver");
    assert!(dev1.is_some());

    // Invalid new device
    let dev2 = Device::with_slug("port@node.driver.driver");
    assert!(dev2.is_none());
}

#[test]
fn test_device_get_slug() {
    let dev1 = Device::with_slug("port@node.driver").unwrap();
    assert_eq!(dev1.get_slug(), "port@node.driver");

    let dev2 = Device::new("port", "node", "driver").unwrap();
    assert_eq!(dev2.get_slug(), "port@node.driver");
}

#[test]
fn test_device_get_port_node_and_driver() {
    let dev1 = Device::with_slug("port@node.driver").unwrap();
    assert_eq!(dev1.get_port(), "port");
    assert_eq!(dev1.get_node(), "node");
    assert_eq!(dev1.get_driver(), "driver");

    let dev2 = Device::new("port", "node", "driver").unwrap();
    assert_eq!(dev2.get_port(), "port");
    assert_eq!(dev2.get_node(), "node");
    assert_eq!(dev2.get_driver(), "driver");
}

#[test]
fn device_test_device_new() {
    // Valid new device with A-Z
    let dev1 = Device::new("PORT", "NODE", "DRIVER");
    assert!(dev1.is_some());

    // Invalid new device
    let dev2 = Device::new("PORT-INV", "NODE@", "DRIVERS.");
    assert!(dev2.is_none());
}

#[test]
fn device_test_device_with_slug() {
    // Valid new device
    let dev1 = Device::with_slug("port@node.driver");
    assert!(dev1.is_some());

    // Invalid new device
    let dev2 = Device::with_slug("port@node.driver.driver");
    assert!(dev2.is_none());
}

#[test]
fn device_permissive_separator() {
    // Any single character may stand between node and driver.
    let dev = Device::with_slug("a@b!c").unwrap();
    assert_eq!(dev.get_port(), "a");
    assert_eq!(dev.get_node(), "b");
    assert_eq!(dev.get_driver(), "c");

    // On an all-word tail the greedy node takes all but the last character,
    // which becomes the separator, and the driver comes out empty.
    let dev = Device::with_slug("port@nodedriver").unwrap();
    assert_eq!(dev.get_port(), "port");
    assert_eq!(dev.get_node(), "nodedrive");
    assert_eq!(dev.get_driver(), "");
}

#[test]
fn device_empty_segments() {
    // The character classes admit empty parts.
    let dev = Device::new("", "", "").unwrap();
    assert_eq!(dev.get_slug(), "@.");
    let dev = Device::with_slug("@.d").unwrap();
    assert_eq!(dev.get_port(), "");
    assert_eq!(dev.get_node(), "");
    assert_eq!(dev.get_driver(), "d");
}

#[test]
fn device_invalid_characters() {
    assert!(Device::new("port$", "node", "driver").is_none());
    assert!(Device::new("port", "no de", "driver").is_none());
    assert!(Device::with_slug("port.10@node$1.driver").is_none());
    assert!(Device::with_slug("portnodedriver").is_none());
    assert!(Device::with_slug("").is_none());
}
