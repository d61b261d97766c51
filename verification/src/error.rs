use vstd::prelude::*;

verus! {

/// Failure kinds of the transceiver protocol layer.
#[derive(Debug)]
pub enum Error {
    /// The USB transport failed (timeout, stall, disconnect, transfer error).
    Rusb(rusb::Error),
    /// A matching device could not be opened or claimed, including
    /// kernel-driver conflicts.
    OpenFailed(rusb::Error),
    /// No enumerated USB device matches the transceiver's vendor or
    /// product id.
    NoDevice,
    /// A response's first byte did not echo the request's command byte.
    UnexpectedCode { actual: u8, expected: u8 },
    /// Malformed data from the device: firmware-version bytes that are
    /// not ASCII text, or a transfer frame that breaks the chunking
    /// invariants (total changed, chunk out of bounds, no end marker).
    Encoding,
}

} // verus!
