use serialservice::serial_manager::{
    check_permissions, finish_open, SerialError, SerialManager, AID_ROOT, AID_SYSTEM,
    FLAG_O_NOCTTY, FLAG_O_RDWR, FLAG_O_WRONLY,
};
use serialservice::serial_port_info::SerialPortInfo;

fn port(name: &str) -> SerialPortInfo {
    SerialPortInfo {
        name: String::from(name),
        subsystem: String::from("serial-base"),
        driver_type: String::from("serial"),
        vendor_id: -1,
        product_id: -1,
    }
}

#[test]
fn permissions_allow_system_and_root_only() {
    assert_eq!(check_permissions(AID_SYSTEM), Ok(()));
    assert_eq!(check_permissions(AID_ROOT), Ok(()));
    assert_eq!(check_permissions(1234), Err(SerialError::PermissionDenied));
}

#[test]
fn duplicate_subscribe_is_rejected_without_mutation() {
    let mut manager = SerialManager::new();
    assert_eq!(manager.registerSerialPortListener(AID_SYSTEM, 42), Ok(()));
    assert_eq!(
        manager.registerSerialPortListener(AID_SYSTEM, 42),
        Err(SerialError::DuplicateRegistration)
    );
    // The set still holds exactly the first registration: unsubscribing it
    // succeeds once and only once.
    assert_eq!(manager.unregisterSerialPortListener(AID_SYSTEM, 42), Ok(()));
    assert_eq!(
        manager.unregisterSerialPortListener(AID_SYSTEM, 42),
        Err(SerialError::ListenerNotFound)
    );
}

#[test]
fn unsubscribe_of_unknown_handle_fails() {
    let mut manager = SerialManager::new();
    assert_eq!(
        manager.unregisterSerialPortListener(AID_SYSTEM, 9),
        Err(SerialError::ListenerNotFound)
    );
}

#[test]
fn subscriptions_demand_permission() {
    let mut manager = SerialManager::new();
    assert_eq!(manager.registerSerialPortListener(1234, 1), Err(SerialError::PermissionDenied));
    assert_eq!(manager.unregisterSerialPortListener(1234, 1), Err(SerialError::PermissionDenied));
    // The denied register left nothing behind.
    assert_eq!(
        manager.unregisterSerialPortListener(AID_SYSTEM, 1),
        Err(SerialError::ListenerNotFound)
    );
}

#[test]
fn death_of_a_listener_removes_its_entry_idempotently() {
    let mut manager = SerialManager::new();
    manager.registerSerialPortListener(AID_SYSTEM, 5).unwrap();
    manager.on_listener_died(5);
    manager.on_listener_died(5);
    assert_eq!(manager.registerSerialPortListener(AID_SYSTEM, 5), Ok(()));
}

#[test]
fn open_of_unknown_port_is_invalid_argument() {
    let manager = SerialManager::new();
    let result = manager.requestOpen(AID_SYSTEM, "ttyS9", FLAG_O_RDWR, false);
    assert!(matches!(result, Err(SerialError::InvalidArgument)));
}

#[test]
fn open_demands_permission() {
    let mut manager = SerialManager::new();
    manager.on_device_added(port("ttyS0"));
    let result = manager.requestOpen(1234, "ttyS0", FLAG_O_RDWR, false);
    assert!(matches!(result, Err(SerialError::PermissionDenied)));
}

#[test]
fn open_plan_forces_no_controlling_terminal() {
    let mut manager = SerialManager::new();
    manager.on_device_added(port("ttyS0"));
    let plan = manager.requestOpen(AID_SYSTEM, "ttyS0", FLAG_O_RDWR, true).unwrap();
    assert_eq!(plan.path, "/dev/ttyS0");
    assert!(plan.read);
    assert!(plan.write);
    assert_eq!(plan.flags, FLAG_O_RDWR | FLAG_O_NOCTTY);
    assert!(plan.exclusive);
}

#[test]
fn open_plan_write_only_clears_read_intent() {
    let mut manager = SerialManager::new();
    manager.on_device_added(port("ttyGS0"));
    let plan = manager.requestOpen(AID_ROOT, "ttyGS0", FLAG_O_WRONLY, false).unwrap();
    assert!(!plan.read);
    assert!(plan.write);
    assert!(!plan.exclusive);
}

#[test]
fn finish_open_surfaces_the_originating_errno() {
    assert_eq!(finish_open(Err(2), None), Err(SerialError::OpenFailed { errno: 2 }));
    assert_eq!(finish_open(Ok(3), Some(25)), Err(SerialError::ControlFailed { errno: 25 }));
    assert_eq!(finish_open(Ok(3), None), Ok(3));
}

#[test]
fn added_port_overwrites_by_name() {
    let mut manager = SerialManager::new();
    manager.on_device_added(port("ttyS0"));
    let mut replacement = port("ttyS0");
    replacement.vendor_id = 0x0694;
    manager.on_device_added(replacement);
    let ports = manager.getSerialPorts();
    assert_eq!(ports.len(), 1);
    assert_eq!(ports[0].vendor_id, 0x0694);
}

#[test]
fn removal_of_absent_port_is_a_quiet_no_op() {
    let mut manager = SerialManager::new();
    manager.registerSerialPortListener(AID_SYSTEM, 3).unwrap();
    let notes = manager.on_device_removed("ttyS0");
    assert!(notes.is_empty());
    assert!(manager.getSerialPorts().is_empty());
}

#[test]
fn every_listener_is_notified_in_subscription_order() {
    let mut manager = SerialManager::new();
    manager.registerSerialPortListener(AID_SYSTEM, 20).unwrap();
    manager.registerSerialPortListener(AID_SYSTEM, 10).unwrap();
    let notes = manager.on_device_added(port("ttyS0"));
    assert_eq!(notes.len(), 2);
    assert_eq!(notes[0].handle, 20);
    assert_eq!(notes[1].handle, 10);
}

#[test]
fn dump_renders_the_registry() {
    let mut manager = SerialManager::new();
    assert_eq!(manager.dump(), "Has 0 port(s).\n");
    let mut acm = port("ttyACM0");
    acm.subsystem = String::from("usb");
    acm.vendor_id = 0x0694;
    acm.product_id = 9;
    manager.on_device_added(acm);
    assert_eq!(
        manager.dump(),
        "Has 1 port(s).\nPort ttyACM0:\n   Subsystem: usb\n   Driver Type: serial\n   Vendor ID: 1684\n   Product ID: 9\n"
    );
    manager.on_device_added(port("ttyS0"));
    assert_eq!(
        manager.dump(),
        "Has 2 port(s).\nPort ttyACM0:\n   Subsystem: usb\n   Driver Type: serial\n   Vendor ID: 1684\n   Product ID: 9\nPort ttyS0:\n   Subsystem: serial-base\n   Driver Type: serial\n   Vendor ID: -1\n   Product ID: -1\n"
    );
}

#[test]
fn snapshot_is_a_copy_of_the_registry() {
    let mut manager = SerialManager::new();
    manager.on_device_added(port("ttyS0"));
    let snapshot = manager.getSerialPorts();
    manager.on_device_removed("ttyS0");
    assert_eq!(snapshot.len(), 1);
    assert_eq!(snapshot[0].name, "ttyS0".to_string());
    assert!(manager.getSerialPorts().is_empty());
}
