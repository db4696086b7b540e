use serial_tool::protocol::PACKET;
use serial_tool::settings::SerialApp;
use serial_tool::transport::{
    next_read_action, read_byte_from, usb_port_names, BaudRate, ComPort, PortEntry, PortKind,
    ReadAction, ReadOutcome, TransportError,
};
use serial_tool::transport::{next_write_action, WriteAction, WriteOutcome};

#[test]
fn timeouts_then_a_byte_deliver_the_byte() {
    let mut attempts = vec![ReadOutcome::TimedOut; 5];
    attempts.push(ReadOutcome::Byte(0x42));
    attempts.push(ReadOutcome::Failed);
    assert_eq!(read_byte_from(&attempts), Some(Ok(0x42)));
}

#[test]
fn a_byte_at_once_is_delivered() {
    assert_eq!(read_byte_from(&[ReadOutcome::Byte(0)]), Some(Ok(0)));
}

#[test]
fn failure_after_timeouts_is_fatal() {
    let attempts = [ReadOutcome::TimedOut, ReadOutcome::Failed, ReadOutcome::Byte(1)];
    assert_eq!(read_byte_from(&attempts), Some(Err(TransportError::Io)));
}

#[test]
fn only_timeouts_keep_waiting() {
    assert_eq!(read_byte_from(&[ReadOutcome::TimedOut; 3]), None);
    assert_eq!(read_byte_from(&[]), None);
}

#[test]
fn read_actions() {
    assert_eq!(next_read_action(ReadOutcome::Byte(9)), ReadAction::Deliver(9));
    assert_eq!(next_read_action(ReadOutcome::TimedOut), ReadAction::Retry);
    assert_eq!(next_read_action(ReadOutcome::Failed), ReadAction::Fail(TransportError::Io));
}

#[test]
fn only_usb_ports_are_listed() {
    let ports = vec![
        PortEntry { name: String::from("/dev/ttyUSB0"), kind: PortKind::Usb },
        PortEntry { name: String::from("/dev/ttyS0"), kind: PortKind::Pci },
        PortEntry { name: String::from("/dev/rfcomm0"), kind: PortKind::Bluetooth },
        PortEntry { name: String::from("/dev/ttyACM0"), kind: PortKind::Usb },
        PortEntry { name: String::from("/dev/ttyX"), kind: PortKind::Unknown },
    ];
    assert_eq!(usb_port_names(&ports), vec!["/dev/ttyUSB0", "/dev/ttyACM0"]);
    assert!(usb_port_names(&[]).is_empty());
}

#[test]
fn baud_rates() {
    assert_eq!(BaudRate::B9600.value(), 9600);
    assert_eq!(BaudRate::B38400.value(), 38400);
    assert_eq!(BaudRate::B115200.value(), 115200);
    assert_eq!(BaudRate::B9600.to_string(), "9600");
    assert_eq!(BaudRate::B38400.to_string(), "38400");
    assert_eq!(BaudRate::B115200.to_string(), "115200");
}

#[test]
fn com_port_names() {
    assert_eq!(ComPort::COM1.port_name(), "COM1");
    assert_eq!(ComPort::COM3.port_name(), "COM3");
    assert_eq!(ComPort::COM10.port_name(), "COM10");
}

#[test]
fn default_settings() {
    let app = SerialApp::default();
    assert_eq!(app.baud_rate, BaudRate::B9600);
    assert_eq!(app.com_port, ComPort::COM1);
    assert!(app.id_filter.is_empty());
    assert!(app.cmd_filter.is_empty());
    assert_eq!(app.send_delay, 100);
    assert_eq!(app.send_count, 1);
    assert_eq!(app.packet.header, PACKET::new().header);
}

#[test]
fn write_actions() {
    assert_eq!(next_write_action(WriteOutcome::Written), WriteAction::Done);
    assert_eq!(next_write_action(WriteOutcome::TimedOut), WriteAction::Retry);
    assert_eq!(next_write_action(WriteOutcome::Failed), WriteAction::Fail(TransportError::Io));
}
