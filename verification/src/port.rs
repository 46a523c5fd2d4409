//! Which serial port the device is on.

use vstd::prelude::*;

verus! {

/// USB vendor identifier of the device.
pub const USB_VID: u16 = 0x0483;

/// USB product identifier of the device.
pub const USB_PID: u16 = 0x5740;

/// The identity that a USB device reports.
#[derive(Clone, Copy, Debug, PartialEq, Eq, Structural)]
pub struct UsbId {
    /// Vendor identifier.
    pub vid: u16,
    /// Product identifier.
    pub pid: u16,
}

/// One serial port of the system.
#[derive(Debug, PartialEq, Eq)]
pub struct PortInfo {
    /// The name by which the port is opened.
    pub name: String,
    /// The identity of the USB device behind the port; `None` for a port of another kind.
    pub usb: Option<UsbId>,
}

/// Whether the device is behind `port`.
pub open spec fn is_device(port: PortInfo) -> bool {
    port.usb == Some(UsbId { vid: USB_VID, pid: USB_PID })
}

/// The position of the first port that the device is behind, if it is behind any.
pub open spec fn device_position(ports: Seq<PortInfo>) -> Option<int>
    decreases ports.len(),
{
    if ports.len() == 0 {
        None
    } else if is_device(ports[0]) {
        Some(0)
    } else {
        match device_position(ports.drop_first()) {
            Some(at) => Some(at + 1),
            None => None,
        }
    }
}

/// The name of the first port that the device is behind, if it is behind any.
pub open spec fn device_port(ports: Seq<PortInfo>) -> Option<Seq<char>> {
    match device_position(ports) {
        Some(at) => Some(ports[at].name@),
        None => None,
    }
}

/// The position found is that of a port of the device, and no port before it is one; where
/// none is found, the device is behind no port.
pub proof fn lemma_device_position(ports: Seq<PortInfo>)
    ensures
        match device_position(ports) {
            Some(at) => {
                &&& 0 <= at < ports.len()
                &&& is_device(ports[at])
                &&& forall|i: int| 0 <= i < at ==> !is_device(#[trigger] ports[i])
            },
            None => forall|i: int| 0 <= i < ports.len() ==> !is_device(#[trigger] ports[i]),
        },
    decreases ports.len(),
{
    if ports.len() > 0 && !is_device(ports[0]) {
        let rest = ports.drop_first();
        lemma_device_position(rest);
        match device_position(rest) {
            Some(at) => {
                assert forall|i: int| 0 <= i < at + 1 implies !is_device(#[trigger] ports[i]) by {
                    if i > 0 {
                        assert(ports[i] == rest[i - 1]);
                    }
                }
            },
            None => {
                assert forall|i: int| 0 <= i < ports.len() implies !is_device(
                    #[trigger] ports[i],
                ) by {
                    if i > 0 {
                        assert(ports[i] == rest[i - 1]);
                    }
                }
            },
        }
    }
}

/// If no port before `at` is one of the device, the search from the start comes out as
/// the search from `at`.
proof fn lemma_skip_others(ports: Seq<PortInfo>, at: int)
    requires
        0 <= at <= ports.len(),
        forall|i: int| 0 <= i < at ==> !is_device(#[trigger] ports[i]),
    ensures
        device_position(ports) == match device_position(ports.skip(at)) {
            Some(found) => Some(found + at),
            None => None,
        },
    decreases at,
{
    if at == 0 {
        assert(ports.skip(0) =~= ports);
    } else {
        let rest = ports.drop_first();
        assert forall|i: int| 0 <= i < at - 1 implies !is_device(#[trigger] rest[i]) by {
            assert(rest[i] == ports[i + 1]);
        }
        lemma_skip_others(rest, at - 1);
        assert(rest.skip(at - 1) =~= ports.skip(at));
        assert(!is_device(ports[0]));
    }
}

/// Looks for the device among the serial ports of the system: the first port with the
/// device's USB identity wins.
pub fn find_port(ports: &Vec<PortInfo>) -> (r: Option<String>)
    ensures
        match r {
            Some(name) => device_port(ports@) == Some(name@),
            None => device_port(ports@) is None,
        },
{
    let mut at: usize = 0;
    while at < ports.len()
        invariant
            at <= ports@.len(),
            forall|i: int| 0 <= i < at ==> !is_device(#[trigger] ports@[i]),
        decreases ports@.len() - at,
    {
        match ports[at].usb {
            Some(id) => {
                if id.vid == USB_VID && id.pid == USB_PID {
                    proof {
                        lemma_skip_others(ports@, at as int);
                        assert(ports@.skip(at as int)[0] == ports@[at as int]);
                    }
                    return Some(ports[at].name.clone());
                }
            },
            None => {},
        }
        at += 1;
    }
    proof {
        lemma_skip_others(ports@, at as int);
    }
    None
}

} // verus!
