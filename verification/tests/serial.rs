//! The serial subsystem's event schemas.

use devconsole::device_watcher;
use devconsole::protocol::TransactionError;
use devconsole::serial_monitor::{self, DeviceRegistry};
use devconsole::serial_protocol::{SerialEvent, SerialRequest};

#[test]
fn serial_events_carry_path_and_line() {
    let opened = SerialEvent::Opened { path: "/dev/ttyACM0".to_string() };
    let line = SerialEvent::Line { path: "/dev/ttyACM0".to_string(), line: vec![0x68, 0x69] };
    let closed = SerialEvent::Closed { path: "/dev/ttyACM0".to_string() };
    assert_ne!(opened, closed);
    match line {
        SerialEvent::Line { path, line } => {
            assert_eq!(path, "/dev/ttyACM0".to_string());
            assert_eq!(line, vec![0x68, 0x69]);
        },
        _ => panic!("expected a line event"),
    }
}

#[test]
fn serial_requests_carry_their_payload() {
    let req = SerialRequest::Data { path: "/dev/ttyUSB1".to_string(), data: vec![1, 2, 3] };
    assert_eq!(
        req,
        SerialRequest::Data { path: "/dev/ttyUSB1".to_string(), data: vec![1, 2, 3] }
    );
}

#[test]
fn monitor_events_distinguish_receipt_and_close() {
    let receipt = serial_monitor::Event::LineReceipt("/dev/ttyACM1".to_string(), vec![0x55]);
    let closed = serial_monitor::Event::Closed("/dev/ttyACM1".to_string());
    assert_ne!(receipt, closed);
    let req = serial_monitor::RequestToDevice::Data(vec![9]);
    assert_eq!(req, serial_monitor::RequestToDevice::Data(vec![9]));
}

#[test]
fn watcher_reports_found_devices() {
    let found = device_watcher::Event::DeviceFound("/dev/ttyACM0".to_string());
    assert_eq!(found, device_watcher::Event::DeviceFound("/dev/ttyACM0".to_string()));
}

#[test]
fn reserved_transaction_error_exists() {
    let err = TransactionError::ChannelConflicted;
    assert!(matches!(err, TransactionError::ChannelConflicted));
}

#[test]
fn registry_tracks_each_device_once() {
    let mut reg = DeviceRegistry::new();
    let acm = "/dev/ttyACM0".to_string();
    let usb = "/dev/ttyUSB0".to_string();
    assert!(!reg.has_device(&acm));
    assert!(reg.add_device(acm.clone()));
    assert!(reg.add_device(usb.clone()));
    // a duplicate is reported and leaves the registry alone
    assert!(!reg.add_device(acm.clone()));
    assert!(reg.has_device(&acm));
    assert_eq!(reg.find_device(&acm), Some(0));
    assert_eq!(reg.find_device(&usb), Some(1));
}

#[test]
fn registry_removal_shifts_later_devices_down() {
    let mut reg = DeviceRegistry::new();
    let a = "/dev/ttyACM0".to_string();
    let b = "/dev/ttyACM1".to_string();
    reg.add_device(a.clone());
    reg.add_device(b.clone());
    assert!(reg.remove_device(&a));
    assert!(!reg.remove_device(&a));
    assert!(!reg.has_device(&a));
    assert_eq!(reg.find_device(&b), Some(0));
}
