use vstd::prelude::*;
use rusb::Error as UsbError;
use std::time::Duration;
use crate::device::Device;
use crate::error::Error;
use crate::transport::Transport;

verus! {

/// rusb's error enum, carried through this library unexamined.
#[verifier::external_type_specification]
#[verifier::external_body]
pub struct ExRusbError(UsbError);

/// One enumerated USB device, not yet opened: rusb::Device under the
/// global context, held opaquely because its generic declaration is
/// refused here.
#[verifier::external_body]
pub struct UsbDevice {
    device: rusb::Device<rusb::GlobalContext>,
}

/// An open handle on a USB device: rusb::DeviceHandle under the global
/// context, held opaquely for the same reason. Dropping it releases
/// the claimed interface and closes the device (rusb's own teardown).
#[verifier::external_body]
pub struct UsbHandle {
    handle: rusb::DeviceHandle<rusb::GlobalContext>,
}


const VENDOR_ID: u16 = 0x22ea;

const PRODUCT_ID: u16 = 0x003a;

const IFACE: u8 = 3;

const ENDPOINT_IN: u8 = 0x84;

const ENDPOINT_OUT: u8 = 0x04;

/// Relies on rusb::devices and rusb::DeviceList::iter: one entry for
/// each USB device the global context enumerates.
#[verifier::external_body]
fn usb_devices() -> (r: Result<Vec<UsbDevice>, UsbError>) {
    match rusb::devices() {
        Ok(list) => Ok(list.iter().map(|device| UsbDevice { device }).collect()),
        Err(e) => Err(e),
    }
}

/// Relies on rusb::Device::device_descriptor: the device's vendor id
/// and product id, in that order.
#[verifier::external_body]
fn usb_device_ids(device: &UsbDevice) -> (r: Result<(u16, u16), UsbError>) {
    device.device.device_descriptor().map(|d| (d.vendor_id(), d.product_id()))
}

/// Relies on rusb::Device::open.
#[verifier::external_body]
fn usb_open_device(device: &UsbDevice) -> (r: Result<UsbHandle, UsbError>) {
    device.device.open().map(|handle| UsbHandle { handle })
}

/// Relies on rusb::DeviceHandle::kernel_driver_active.
#[verifier::external_body]
fn usb_kernel_driver_active(handle: &UsbHandle, iface: u8) -> (r: Result<bool, UsbError>) {
    handle.handle.kernel_driver_active(iface)
}

/// Relies on rusb::DeviceHandle::detach_kernel_driver.
#[verifier::external_body]
fn usb_detach_kernel_driver(handle: &UsbHandle, iface: u8) -> (r: Result<(), UsbError>) {
    handle.handle.detach_kernel_driver(iface)
}

/// Relies on rusb::DeviceHandle::claim_interface.
#[verifier::external_body]
fn usb_claim_interface(handle: &UsbHandle, iface: u8) -> (r: Result<(), UsbError>) {
    handle.handle.claim_interface(iface)
}

/// Relies on rusb::DeviceHandle::write_interrupt: writes the frame to
/// the given interrupt-out endpoint, blocking at most `timeout`.
#[verifier::external_body]
fn usb_write_interrupt(
    handle: &UsbHandle,
    endpoint: u8,
    frame: &[u8; 64],
    timeout: Duration,
) -> (r: Result<(), UsbError>) {
    match handle.handle.write_interrupt(endpoint, frame, timeout) {
        Ok(_) => Ok(()),
        Err(e) => Err(e),
    }
}

/// Relies on rusb::DeviceHandle::read_interrupt: fills a zeroed 64-byte
/// buffer from the given interrupt-in endpoint, blocking at most
/// `timeout`; bytes past the transferred count stay zero.
#[verifier::external_body]
fn usb_read_interrupt(
    handle: &UsbHandle,
    endpoint: u8,
    timeout: Duration,
) -> (r: Result<[u8; 64], UsbError>) {
    let mut response = [0u8; 64];
    match handle.handle.read_interrupt(endpoint, &mut response, timeout) {
        Ok(_) => Ok(response),
        Err(e) => Err(e),
    }
}

/// The real transport: an open, claimed handle on the transceiver and
/// the timeout bounding each transfer, beside the ghost transcripts of
/// the frames that crossed the wire.
pub struct RusbTransport {
    handle: UsbHandle,
    timeout: Duration,
    sent_frames: Ghost<Seq<Seq<u8>>>,
    rcvd_frames: Ghost<Seq<Seq<u8>>>,
}

impl RusbTransport {
    /// The timeout bounding each transfer of this transport.
    pub closed spec fn timeout_of(&self) -> Duration {
        self.timeout
    }
}

impl Transport for RusbTransport {
    closed spec fn sent(&self) -> Seq<Seq<u8>> {
        self.sent_frames@
    }

    closed spec fn rcvd(&self) -> Seq<Seq<u8>> {
        self.rcvd_frames@
    }

    fn write_frame(&mut self, frame: &[u8; 64]) -> (r: Result<(), Error>) {
        match usb_write_interrupt(&self.handle, ENDPOINT_OUT, frame, self.timeout) {
            Ok(()) => {
                proof {
                    self.sent_frames@ = self.sent_frames@.push(frame@);
                }
                Ok(())
            },
            Err(e) => Err(Error::Rusb(e)),
        }
    }

    fn read_frame(&mut self) -> (r: Result<[u8; 64], Error>) {
        match usb_read_interrupt(&self.handle, ENDPOINT_IN, self.timeout) {
            Ok(f) => {
                proof {
                    self.rcvd_frames@ = self.rcvd_frames@.push(f@);
                }
                Ok(f)
            },
            Err(e) => Err(Error::Rusb(e)),
        }
    }
}

/// Whether an enumerated device is taken for the transceiver: vendor id
/// 0x22EA or product id 0x003A, either alone sufficing — this matches
/// the device's established discovery behavior.
pub fn device_matches(vendor_id: u16, product_id: u16) -> (r: bool)
    ensures
        r == (vendor_id == 0x22ea || product_id == 0x003a),
{
    vendor_id == VENDOR_ID || product_id == PRODUCT_ID
}

/// Opens the transceiver: takes the first enumerated device whose
/// vendor or product id matches, detaches an active kernel driver from
/// the control interface, claims that interface, and wraps the handle
/// in a session whose every transfer is bounded by `timeout`. Fails
/// with Error::NoDevice when nothing the bus enumerates matches,
/// Error::OpenFailed when a matching device cannot be opened or claimed
/// (kernel-driver conflicts included), and Error::Rusb when enumeration
/// itself fails; which of these happens depends on the machine's USB
/// bus, so only the session's shape can be promised. Dropping the
/// session releases the interface and closes the handle on every exit
/// path.
pub fn open(timeout: Duration) -> (r: Result<Device<RusbTransport>, Error>)
    ensures
        r matches Ok(d) ==> {
            &&& d.transport().timeout_of() == timeout
            &&& d.sent() == Seq::<Seq<u8>>::empty()
            &&& d.rcvd() == Seq::<Seq<u8>>::empty()
        },
        r matches Err(e) ==> (e is NoDevice || e is OpenFailed || e is Rusb),
{
    let devices = match usb_devices() {
        Ok(d) => d,
        Err(e) => return Err(Error::Rusb(e)),
    };
    let mut i: usize = 0;
    while i < devices.len()
        invariant
            i <= devices@.len(),
        decreases devices@.len() - i,
    {
        let ids = match usb_device_ids(&devices[i]) {
            Ok(p) => p,
            Err(e) => return Err(Error::Rusb(e)),
        };
        if device_matches(ids.0, ids.1) {
            let handle = match usb_open_device(&devices[i]) {
                Ok(h) => h,
                Err(e) => return Err(Error::OpenFailed(e)),
            };
            let active = match usb_kernel_driver_active(&handle, IFACE) {
                Ok(b) => b,
                Err(e) => return Err(Error::OpenFailed(e)),
            };
            if active {
                match usb_detach_kernel_driver(&handle, IFACE) {
                    Ok(()) => {},
                    Err(e) => return Err(Error::OpenFailed(e)),
                }
            }
            match usb_claim_interface(&handle, IFACE) {
                Ok(()) => {},
                Err(e) => return Err(Error::OpenFailed(e)),
            }
            let transport = RusbTransport {
                handle,
                timeout,
                sent_frames: Ghost(Seq::empty()),
                rcvd_frames: Ghost(Seq::empty()),
            };
            return Ok(Device::new(transport));
        }
        i = i + 1;
    }
    Err(Error::NoDevice)
}

} // verus!
