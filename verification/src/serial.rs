//! Choosing the probe among the serial ports and the USB devices of the
//! host. The caller lists what is there; the choice is made here.

use vstd::prelude::*;

verus! {

/// USB product identifier of the probe.
pub const TARGET_PID: u16 = 0x8055;

/// Baud rate of the probe's serial channel.
pub const DEFAULT_BAUD_RATE: u32 = 115200;

/// Milliseconds after which a read on the channel gives up.
pub const READ_TIMEOUT_MS: u64 = 1000;

/// Milliseconds to wait between a raw write and the read that follows it.
pub const TURNAROUND_MS: u64 = 10;

/// Size of the buffer for the reply to the debug sequence.
pub const DEBUG_REPLY_WINDOW: usize = 256;

/// Milliseconds to wait for the reply to the debug sequence.
pub const DEBUG_REPLY_TIMEOUT_MS: u64 = 2000;

/// The fixed frame that probes the link: a resume request with a zero
/// checksum byte.
pub const DEBUG_SEQUENCE: [u8; 8] = [0xff, 0xf9, 0x00, 0x02, 0xc2, 0x00, 0xf5, 0xe7];

/// A serial port of the host, as far as the choice needs it.
#[derive(Debug, Clone)]
pub struct PortCandidate {
    /// The name under which the port is opened.
    pub name: String,
    /// The product identifier, where the port is a USB port.
    pub usb_pid: Option<u16>,
}

/// Whether port `i` is a USB port with the product identifier `pid`.
pub open spec fn port_matches(ports: Seq<PortCandidate>, i: int, pid: u16) -> bool {
    ports[i].usb_pid == Some(pid)
}

/// Whether `found` is the first port with the product identifier, or `None`
/// where no port has it.
pub open spec fn first_match(ports: Seq<PortCandidate>, pid: u16, found: Option<usize>) -> bool {
    match found {
        Some(i) => {
            &&& i < ports.len()
            &&& port_matches(ports, i as int, pid)
            &&& forall|j: int| 0 <= j < i ==> !port_matches(ports, j, pid)
        },
        None => forall|j: int| 0 <= j < ports.len() ==> !port_matches(ports, j, pid),
    }
}

/// The first port with the given USB product identifier.
pub fn find_usb_port(ports: &Vec<PortCandidate>, target_pid: u16) -> (found: Option<usize>)
    ensures
        first_match(ports@, target_pid, found),
{
    let mut i: usize = 0;
    while i < ports.len()
        invariant
            i <= ports.len(),
            forall|j: int| 0 <= j < i ==> !port_matches(ports@, j, target_pid),
        decreases ports.len() - i,
    {
        let hit = match ports[i].usb_pid {
            Some(pid) => pid == target_pid,
            None => false,
        };
        if hit {
            return Some(i);
        }
        i = i + 1;
    }
    None
}

/// The port to open: the first one with the given USB product identifier,
/// or the first port of all where none has it. No port is chosen only where
/// there is none.
pub fn choose_port(ports: &Vec<PortCandidate>, target_pid: u16) -> (chosen: Option<usize>)
    ensures
        ports@.len() == 0 ==> chosen is None,
        ports@.len() > 0 && first_match(ports@, target_pid, None) ==> chosen == Some(0usize),
        ports@.len() > 0 && !first_match(ports@, target_pid, None) ==> chosen is Some
            && first_match(ports@, target_pid, chosen),
{
    if ports.len() == 0 {
        return None;
    }
    match find_usb_port(ports, target_pid) {
        Some(i) => Some(i),
        None => Some(0),
    }
}

/// Whether a device with the given product identifier is among the USB
/// devices of the host.
pub fn pid_present(product_ids: &[u16], target_pid: u16) -> (present: bool)
    ensures
        present == product_ids@.contains(target_pid),
{
    let mut i: usize = 0;
    while i < product_ids.len()
        invariant
            i <= product_ids.len(),
            forall|j: int| 0 <= j < i ==> product_ids@[j] != target_pid,
        decreases product_ids.len() - i,
    {
        if product_ids[i] == target_pid {
            return true;
        }
        i = i + 1;
    }
    false
}

/// What a read of the debug channel amounts to: the bytes that arrived, or
/// nothing where the read timed out.
pub fn received_bytes(buffer: &[u8], bytes_read: Option<usize>) -> (received: Vec<u8>)
    requires
        bytes_read matches Some(n) ==> n <= buffer@.len(),
    ensures
        bytes_read matches Some(n) ==> received@ == buffer@.take(n as int),
        bytes_read is None ==> received@.len() == 0,
{
    match bytes_read {
        Some(n) => {
            let part = vstd::slice::slice_subrange(buffer, 0, n);
            let received = vstd::slice::slice_to_vec(part);
            assert(received@ =~= buffer@.take(n as int));
            received
        },
        None => Vec::new(),
    }
}

} // verus!
