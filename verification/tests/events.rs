use serialservice::device_events_handler::{
    file_name_of, DeviceEvent, DeviceEventsHandler, DeviceKind, DeviceModel, EventType, PortChange,
};
use serialservice::driver_type_finder::DriverTypeFinderImpl;
use serialservice::serial_manager::{process_event, PortEvent, SerialManager};
use serialservice::usb_identity::{read_hex_attr, UsbAncestor, UsbDeviceId};

const REAL_DRIVERS_FILE_CONTENTS: &str = "
/dev/tty             /dev/tty        5       0 system:/dev/tty
/dev/console         /dev/console    5       1 system:console
/dev/ptmx            /dev/ptmx       5       2 system
acm                  /dev/ttyACM   166 0-255 serial
g_serial             /dev/ttyGS    235       7 serial
ttynull              /dev/ttynull  240       0 console
serial               /dev/ttyS       4 64-95 serial
pty_slave            /dev/pts      136 0-1048575 pty:slave
pty_master           /dev/ptm      128 0-1048575 pty:master
";

fn rdev(major: u64, minor: u64) -> u64 {
    ((major & 0xfff) << 8) | (minor & 0xff) | ((minor & 0xffffff00) << 12)
}

fn usb_device() -> DeviceModel {
    DeviceModel {
        rdev: Some(rdev(166, 0)),
        subsystem: Some(String::from("usb")),
        usb_ancestors: vec![UsbAncestor {
            vendor_attr: Some(String::from("0694\n")),
            product_attr: Some(String::from("0009\n")),
        }],
    }
}

fn uart_device() -> DeviceModel {
    DeviceModel {
        rdev: Some(rdev(4, 64)),
        subsystem: Some(String::from("serial-base")),
        usb_ancestors: vec![],
    }
}

fn add_event(path: &str, device: DeviceModel) -> DeviceEvent {
    DeviceEvent {
        event_type: EventType::Add,
        device_kind: DeviceKind::DeviceNode { devnode_path: String::from(path) },
        device,
    }
}

fn remove_event(path: &str, device: DeviceModel) -> DeviceEvent {
    DeviceEvent {
        event_type: EventType::Remove,
        device_kind: DeviceKind::DeviceNode { devnode_path: String::from(path) },
        device,
    }
}

#[test]
fn test_handle_add_serial_device() {
    let mut handler = DeviceEventsHandler::new(DriverTypeFinderImpl::new_from_file(String::from(
        "drivers",
    )));
    let event = add_event("/dev/ttyACM0", usb_device());
    match handler.handle_device_event(&event, Some(REAL_DRIVERS_FILE_CONTENTS)) {
        Some(PortChange::Added(info)) => {
            assert_eq!(info.name, "ttyACM0".to_string());
            assert_eq!(info.subsystem, "usb".to_string());
            assert_eq!(info.driver_type, "serial".to_string());
            assert_eq!(info.vendor_id, 0x0694);
            assert_eq!(info.product_id, 0x0009);
        },
        _ => panic!("expected the device to be added"),
    }
}

#[test]
fn test_handle_add_device_without_usb_id() {
    let mut handler = DeviceEventsHandler::new(DriverTypeFinderImpl::new_from_file(String::from(
        "drivers",
    )));
    let event = add_event("/dev/ttyS0", uart_device());
    match handler.handle_device_event(&event, Some(REAL_DRIVERS_FILE_CONTENTS)) {
        Some(PortChange::Added(info)) => {
            assert_eq!(info.name, "ttyS0".to_string());
            assert_eq!(info.subsystem, "serial-base".to_string());
            assert_eq!(info.driver_type, "serial".to_string());
            assert_eq!(info.vendor_id, -1);
            assert_eq!(info.product_id, -1);
        },
        _ => panic!("expected the device to be added"),
    }
}

#[test]
fn test_handle_add_and_remove_serial_device() {
    let mut handler = DeviceEventsHandler::new(DriverTypeFinderImpl::new_from_file(String::from(
        "drivers",
    )));
    let added = handler.handle_device_event(
        &add_event("/dev/ttyACM0", usb_device()),
        Some(REAL_DRIVERS_FILE_CONTENTS),
    );
    match added {
        Some(PortChange::Added(info)) => {
            assert_eq!(info.name, "ttyACM0".to_string());
            assert_eq!(info.subsystem, "usb".to_string());
            assert_eq!(info.driver_type, "serial".to_string());
            assert_eq!(info.vendor_id, 0x0694);
            assert_eq!(info.product_id, 0x0009);
        },
        _ => panic!("expected the device to be added"),
    }
    let removed = handler.handle_device_event(
        &remove_event("/dev/ttyACM0", usb_device()),
        Some(REAL_DRIVERS_FILE_CONTENTS),
    );
    match removed {
        Some(PortChange::Removed(name)) => assert_eq!(name, "ttyACM0"),
        _ => panic!("expected the device to be removed"),
    }
}

#[test]
fn test_handle_add_alien_device() {
    let mut handler = DeviceEventsHandler::new(DriverTypeFinderImpl::new_from_file(String::from(
        "drivers",
    )));
    // No driver-table entry covers this node: the event is dropped.
    let mut device = usb_device();
    device.rdev = Some(rdev(200, 0));
    let outcome = handler.handle_device_event(
        &add_event("/dev/alien", device),
        Some(REAL_DRIVERS_FILE_CONTENTS),
    );
    assert!(outcome.is_none());
}

#[test]
fn add_event_with_unreadable_metadata_is_dropped() {
    let mut handler = DeviceEventsHandler::new(DriverTypeFinderImpl::new_from_file(String::from(
        "drivers",
    )));
    let mut device = uart_device();
    device.rdev = None;
    let outcome = handler.handle_device_event(
        &add_event("/dev/ttyS0", device),
        Some(REAL_DRIVERS_FILE_CONTENTS),
    );
    assert!(outcome.is_none());
}

#[test]
fn event_of_another_shape_is_dropped() {
    let mut handler = DeviceEventsHandler::new(DriverTypeFinderImpl::new_from_file(String::from(
        "drivers",
    )));
    let event = DeviceEvent {
        event_type: EventType::Add,
        device_kind: DeviceKind::Other,
        device: uart_device(),
    };
    assert!(handler.handle_device_event(&event, Some(REAL_DRIVERS_FILE_CONTENTS)).is_none());
}

#[test]
fn subsystem_defaults_to_virtual() {
    let mut handler = DeviceEventsHandler::new(DriverTypeFinderImpl::new_from_file(String::from(
        "drivers",
    )));
    let mut device = uart_device();
    device.subsystem = None;
    match handler.handle_device_event(
        &add_event("/dev/ttyS0", device),
        Some(REAL_DRIVERS_FILE_CONTENTS),
    ) {
        Some(PortChange::Added(info)) => assert_eq!(info.subsystem, "virtual".to_string()),
        _ => panic!("expected the device to be added"),
    }
}

#[test]
fn usb_identity_takes_first_readable_vendor() {
    let id = UsbDeviceId::find_for_device(&vec![
        UsbAncestor { vendor_attr: None, product_attr: Some(String::from("9999")) },
        UsbAncestor {
            vendor_attr: Some(String::from("0694\n")),
            product_attr: Some(String::from("0009\n")),
        },
        UsbAncestor {
            vendor_attr: Some(String::from("1111")),
            product_attr: Some(String::from("2222")),
        },
    ]);
    assert_eq!(id.vendor_id, 0x0694);
    assert_eq!(id.product_id, 0x0009);
}

#[test]
fn usb_identity_defaults_product_to_unknown() {
    let id = UsbDeviceId::find_for_device(&vec![UsbAncestor {
        vendor_attr: Some(String::from("0694")),
        product_attr: None,
    }]);
    assert_eq!(id.vendor_id, 0x0694);
    assert_eq!(id.product_id, -1);
}

#[test]
fn usb_identity_without_usb_ancestor_is_unknown() {
    let id = UsbDeviceId::find_for_device(&vec![]);
    assert_eq!(id.vendor_id, -1);
    assert_eq!(id.product_id, -1);
}

#[test]
fn hex_attr_reads_trimmed_base_16() {
    assert_eq!(read_hex_attr(&Some(String::from(" 0694\n"))), Some(0x0694));
    assert_eq!(read_hex_attr(&Some(String::from("ffff"))), Some(0xffff));
    assert_eq!(read_hex_attr(&Some(String::from("zz"))), None);
    // A value beyond i32 is malformed, not wrapped.
    assert_eq!(read_hex_attr(&Some(String::from("FFFFFFFF"))), None);
    assert_eq!(read_hex_attr(&None), None);
}

#[test]
fn file_name_takes_the_terminal_segment() {
    assert_eq!(file_name_of("/dev/ttyS0"), Some(String::from("ttyS0")));
    assert_eq!(file_name_of("ttyUSB3"), Some(String::from("ttyUSB3")));
    assert_eq!(file_name_of("/dev/tty/"), Some(String::from("tty")));
    assert_eq!(file_name_of("///"), None);
    assert_eq!(file_name_of(""), None);
    assert_eq!(file_name_of("/dev/.."), None);
}

#[test]
fn end_to_end_add_builds_the_expected_record() {
    // The driver table holds the serial entry for majors 4, minors 64-95;
    // /dev/ttyS0 has major 4, minor 80, subsystem serial-base, and no USB
    // ancestor.
    let table = "serial /dev/ttyS 4 64-95 serial\n";
    let mut handler = DeviceEventsHandler::new(DriverTypeFinderImpl::new_from_file(String::from(
        "drivers",
    )));
    let mut manager = SerialManager::new();
    let device = DeviceModel {
        rdev: Some(rdev(4, 80)),
        subsystem: Some(String::from("serial-base")),
        usb_ancestors: vec![],
    };
    let notes = process_event(
        &mut handler,
        &mut manager,
        &add_event("/dev/ttyS0", device),
        Some(table),
    );
    assert!(notes.is_empty());
    let ports = manager.getSerialPorts();
    assert_eq!(ports.len(), 1);
    assert_eq!(ports[0].name, "ttyS0".to_string());
    assert_eq!(ports[0].subsystem, "serial-base".to_string());
    assert_eq!(ports[0].driver_type, "serial".to_string());
    assert_eq!(ports[0].vendor_id, -1);
    assert_eq!(ports[0].product_id, -1);
}

#[test]
fn add_then_remove_notifies_once_each_and_ends_absent() {
    let mut handler = DeviceEventsHandler::new(DriverTypeFinderImpl::new_from_file(String::from(
        "drivers",
    )));
    let mut manager = SerialManager::new();
    manager.registerSerialPortListener(1000, 7).unwrap();
    let connect_notes = process_event(
        &mut handler,
        &mut manager,
        &add_event("/dev/ttyACM0", usb_device()),
        Some(REAL_DRIVERS_FILE_CONTENTS),
    );
    assert_eq!(connect_notes.len(), 1);
    assert_eq!(connect_notes[0].handle, 7);
    match &connect_notes[0].event {
        PortEvent::Connected(info) => assert_eq!(info.name, "ttyACM0".to_string()),
        _ => panic!("expected a connect notification"),
    }
    let disconnect_notes = process_event(
        &mut handler,
        &mut manager,
        &remove_event("/dev/ttyACM0", usb_device()),
        Some(REAL_DRIVERS_FILE_CONTENTS),
    );
    assert_eq!(disconnect_notes.len(), 1);
    assert_eq!(disconnect_notes[0].handle, 7);
    match &disconnect_notes[0].event {
        PortEvent::Disconnected(info) => {
            assert_eq!(info.name, "ttyACM0".to_string());
            assert_eq!(info.vendor_id, 0x0694);
        },
        _ => panic!("expected a disconnect notification"),
    }
    assert!(manager.getSerialPorts().is_empty());
}
