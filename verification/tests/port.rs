use slot_sync::port::{find_port, PortInfo, UsbId, USB_PID, USB_VID};

fn usb(name: &str, vid: u16, pid: u16) -> PortInfo {
    PortInfo { name: String::from(name), usb: Some(UsbId { vid, pid }) }
}

fn plain(name: &str) -> PortInfo {
    PortInfo { name: String::from(name), usb: None }
}

#[test]
fn identity_of_the_device() {
    assert_eq!(USB_VID, 0x0483);
    assert_eq!(USB_PID, 0x5740);
}

#[test]
fn no_ports_no_device() {
    assert_eq!(find_port(&Vec::new()), None);
}

#[test]
fn other_ports_are_passed_over() {
    let ports = vec![
        plain("/dev/ttyS0"),
        usb("/dev/ttyUSB0", 0x0403, 0x6001),
        usb("/dev/ttyUSB1", 0x0483, 0x5741),
        usb("/dev/ttyUSB2", 0x0484, 0x5740),
        usb("/dev/ttyUSB3", 0x5740, 0x0483),
    ];
    assert_eq!(find_port(&ports), None);
}

#[test]
fn the_device_is_found_by_its_identity() {
    let ports = vec![
        plain("/dev/ttyS0"),
        usb("/dev/ttyUSB0", 0x0403, 0x6001),
        usb("/dev/ttyACM0", 0x0483, 0x5740),
    ];
    assert_eq!(find_port(&ports), Some(String::from("/dev/ttyACM0")));
}

#[test]
fn the_first_match_wins() {
    let ports = vec![
        usb("/dev/ttyACM3", 0x0483, 0x5740),
        plain("/dev/ttyS0"),
        usb("/dev/ttyACM0", 0x0483, 0x5740),
    ];
    assert_eq!(find_port(&ports), Some(String::from("/dev/ttyACM3")));
}
