use adir01p::{Bit, Device, Error, Transport};
use std::cell::RefCell;
use std::rc::Rc;

/// Serializes one poll-style payload (total, offset, count, pulses) into
/// a 64-byte frame under the given command byte.
fn chunk_frame(cmd: u8, total: u16, offset: u16, count: u8, pulses: &[Bit]) -> [u8; 64] {
    let mut f = [0u8; 64];
    f[0] = cmd;
    f[1..3].copy_from_slice(&total.to_be_bytes());
    f[3..5].copy_from_slice(&offset.to_be_bytes());
    f[5] = count;
    for (i, p) in pulses.iter().enumerate() {
        f[6 + 4 * i..8 + 4 * i].copy_from_slice(&p.on.to_be_bytes());
        f[8 + 4 * i..10 + 4 * i].copy_from_slice(&p.off.to_be_bytes());
    }
    f
}

/// A scripted transport: echoes every command byte, serves prepared
/// poll responses in order (then end markers), serves a fixed version
/// reply, and records every written frame in a shared log.
struct FakeTransport {
    written: Rc<RefCell<Vec<[u8; 64]>>>,
    poll_responses: Vec<[u8; 64]>,
    next_poll: usize,
    version_reply: [u8; 64],
    last_cmd: u8,
}

impl FakeTransport {
    fn new(poll_responses: Vec<[u8; 64]>) -> (FakeTransport, Rc<RefCell<Vec<[u8; 64]>>>) {
        let written = Rc::new(RefCell::new(Vec::new()));
        let mut version_reply = [0u8; 64];
        version_reply[0] = 0x56;
        let t = FakeTransport {
            written: written.clone(),
            poll_responses,
            next_poll: 0,
            version_reply,
            last_cmd: 0,
        };
        (t, written)
    }
}

impl Transport for FakeTransport {
    fn write_frame(&mut self, frame: &[u8; 64]) -> Result<(), Error> {
        self.last_cmd = frame[0];
        self.written.borrow_mut().push(*frame);
        Ok(())
    }

    fn read_frame(&mut self) -> Result<[u8; 64], Error> {
        match self.last_cmd {
            0x33 => {
                let f = if self.next_poll < self.poll_responses.len() {
                    self.poll_responses[self.next_poll]
                } else {
                    chunk_frame(0x33, 0, 0, 0, &[])
                };
                self.next_poll += 1;
                Ok(f)
            }
            0x56 => Ok(self.version_reply),
            c => {
                let mut f = [0u8; 64];
                f[0] = c;
                Ok(f)
            }
        }
    }
}

/// A transport whose every response carries a fixed, wrong first byte.
struct MismatchTransport;

impl Transport for MismatchTransport {
    fn write_frame(&mut self, _frame: &[u8; 64]) -> Result<(), Error> {
        Ok(())
    }

    fn read_frame(&mut self) -> Result<[u8; 64], Error> {
        let mut f = [0u8; 64];
        f[0] = 0x99;
        Ok(f)
    }
}

#[test]
fn firmware_query_returns_version() {
    let (mut t, _) = FakeTransport::new(Vec::new());
    t.version_reply[1] = b'1';
    t.version_reply[2] = b'.';
    t.version_reply[3] = b'0';
    // byte 4 is already the 0 terminator
    let mut device = Device::new(t);
    let version = device.firmware_version().unwrap();
    assert_eq!(version, "1.0");
}

#[test]
fn firmware_version_without_terminator_takes_all() {
    let (mut t, _) = FakeTransport::new(Vec::new());
    for i in 1..64 {
        t.version_reply[i] = b'a';
    }
    let mut device = Device::new(t);
    let version = device.firmware_version().unwrap();
    assert_eq!(version.len(), 63);
    assert!(version.bytes().all(|b| b == b'a'));
}

#[test]
fn firmware_version_empty() {
    let (t, _) = FakeTransport::new(Vec::new());
    let mut device = Device::new(t);
    assert_eq!(device.firmware_version().unwrap(), "");
}

#[test]
fn firmware_version_non_ascii_is_encoding_error() {
    let (mut t, _) = FakeTransport::new(Vec::new());
    t.version_reply[1] = 0xC3;
    t.version_reply[2] = 0xA9;
    let mut device = Device::new(t);
    assert!(matches!(device.firmware_version(), Err(Error::Encoding)));
}

#[test]
fn mismatch_yields_unexpected_code() {
    let mut device = Device::new(MismatchTransport);
    match device.firmware_version() {
        Err(Error::UnexpectedCode { actual, expected }) => {
            assert_eq!(actual, 0x99);
            assert_eq!(expected, 0x56);
        }
        other => panic!("expected a code mismatch, got {:?}", other.map(|_| ())),
    }
}

#[test]
fn mismatch_during_capture_accepts_no_data() {
    // The receiver cannot even be armed over a mismatching transport:
    // the session hands out no buffer at all.
    let mut device = Device::new(MismatchTransport);
    match device.recv(38_000) {
        Err(Error::UnexpectedCode { actual, expected }) => {
            assert_eq!(actual, 0x99);
            assert_eq!(expected, 0x31);
        }
        Ok(_) => panic!("capture must not start on a mismatching transport"),
        Err(other) => panic!("expected a code mismatch, got {:?}", other),
    }
}

/// A transport whose first poll succeeds with 1 of 3 pulses and whose
/// next response is corrupt.
struct HalfBadTransport {
    polled: bool,
    last_cmd: u8,
}

impl Transport for HalfBadTransport {
    fn write_frame(&mut self, frame: &[u8; 64]) -> Result<(), Error> {
        self.last_cmd = frame[0];
        Ok(())
    }

    fn read_frame(&mut self) -> Result<[u8; 64], Error> {
        if self.last_cmd == 0x33 {
            if !self.polled {
                self.polled = true;
                return Ok(chunk_frame(0x33, 3, 0, 1, &[Bit { on: 9, off: 9 }]));
            }
            let mut f = [0u8; 64];
            f[0] = 0x99;
            return Ok(f);
        }
        let mut f = [0u8; 64];
        f[0] = self.last_cmd;
        Ok(f)
    }
}

#[test]
fn mismatch_during_drain_accepts_no_data() {
    // The partial buffer must be dropped, not returned.
    let mut device = Device::new(HalfBadTransport { polled: false, last_cmd: 0 });
    let r = device.recv(38_000).unwrap().finish();
    match r {
        Err(Error::UnexpectedCode { actual, expected }) => {
            assert_eq!(actual, 0x99);
            assert_eq!(expected, 0x33);
        }
        Ok(_) => panic!("a corrupt drain must not yield a buffer"),
        Err(other) => panic!("expected a code mismatch, got {:?}", other),
    }
}

#[test]
fn capture_then_replay_three_pulses() {
    let pulses = [
        Bit { on: 100, off: 200 },
        Bit { on: 300, off: 400 },
        Bit { on: 500, off: 600 },
    ];
    // Capture: one data chunk of 3 pulses, then the implicit end marker;
    // exactly one poll-derived buffer of length 3 comes back.
    let (t, _) = FakeTransport::new(vec![chunk_frame(0x33, 3, 0, 3, &pulses)]);
    let mut device = Device::new(t);
    let recv = device.recv(38_000).unwrap();
    let bits = recv.finish().unwrap();
    assert_eq!(bits.len(), 3);
    assert_eq!(bits, pulses.to_vec());

    // Replay: exactly one data frame carrying those 3 pulses, one
    // zero-count end frame, and one transmit-start with total 3.
    let (t, written) = FakeTransport::new(Vec::new());
    let mut device = Device::new(t);
    device.send(38_000, &bits).unwrap();
    let written = written.borrow();
    assert_eq!(written.len(), 3);
    assert_eq!(written[0], chunk_frame(0x34, 3, 0, 3, &pulses));
    assert_eq!(written[1], chunk_frame(0x34, 3, 3, 0, &[]));
    let mut transmit = [0u8; 64];
    transmit[0] = 0x35;
    transmit[1..3].copy_from_slice(&38_000u16.to_be_bytes());
    transmit[3..5].copy_from_slice(&3u16.to_be_bytes());
    assert_eq!(written[2], transmit);
}

#[test]
fn empty_send_emits_only_end_marker() {
    let (t, written) = FakeTransport::new(Vec::new());
    let mut device = Device::new(t);
    device.send(38_000, &[]).unwrap();
    let written = written.borrow();
    assert_eq!(written.len(), 2);
    assert_eq!(written[0], chunk_frame(0x34, 0, 0, 0, &[]));
    assert_eq!(written[1][0], 0x35);
}

/// Splits through the real write protocol, then reconstructs through
/// the real read protocol, for one pulse sequence length.
fn write_read_round_trip(len: usize) {
    let pulses: Vec<Bit> = (0..len)
        .map(|i| Bit {
            on: (i * 3 + 1) as u16,
            off: (i * 3 + 2) as u16,
        })
        .collect();
    let (t, written) = FakeTransport::new(Vec::new());
    let mut device = Device::new(t);
    device.send(38_000, &pulses).unwrap();
    // Every data frame, end marker included, becomes a poll response.
    let polls: Vec<[u8; 64]> = written
        .borrow()
        .iter()
        .filter(|f| f[0] == 0x34)
        .map(|f| {
            let mut p = *f;
            p[0] = 0x33;
            p
        })
        .collect();
    let (t2, _) = FakeTransport::new(polls);
    let mut device = Device::new(t2);
    let recv = device.recv(38_000).unwrap();
    let got = recv.finish().unwrap();
    assert_eq!(got, pulses, "length {}", len);
}

#[test]
fn chunked_round_trip_lengths() {
    for len in [0usize, 1, 2, 13, 14, 15, 27, 28, 29, 100] {
        write_read_round_trip(len);
    }
}

#[test]
fn poll_count_is_capped_at_14() {
    // A frame announcing 200 inlined pulses carries only 14; the session
    // must not read past the frame.
    let (t, _) = FakeTransport::new(vec![chunk_frame(0x33, 14, 0, 200, &[])]);
    let mut device = Device::new(t);
    let bits = device.recv(38_000).unwrap().finish().unwrap();
    assert_eq!(bits.len(), 14);
    assert!(bits.iter().all(|b| *b == Bit { on: 0, off: 0 }));
}

#[test]
fn poll_chunk_past_buffer_is_refused() {
    let pulses = [Bit { on: 1, off: 2 }; 3];
    let (t, _) = FakeTransport::new(vec![chunk_frame(0x33, 3, 2, 3, &pulses)]);
    let mut device = Device::new(t);
    let r = device.recv(38_000).unwrap().finish();
    assert!(matches!(r, Err(Error::Encoding)));
}

#[test]
fn poll_total_change_is_refused() {
    let pulses = [Bit { on: 1, off: 2 }];
    let (t, _) = FakeTransport::new(vec![
        chunk_frame(0x33, 3, 0, 1, &pulses),
        chunk_frame(0x33, 5, 1, 1, &pulses),
    ]);
    let mut device = Device::new(t);
    let r = device.recv(38_000).unwrap().finish();
    assert!(matches!(r, Err(Error::Encoding)));
}

/// A transport that fails every transfer with a timeout.
struct TimeoutTransport;

impl Transport for TimeoutTransport {
    fn write_frame(&mut self, _frame: &[u8; 64]) -> Result<(), Error> {
        Err(Error::Rusb(rusb::Error::Timeout))
    }

    fn read_frame(&mut self) -> Result<[u8; 64], Error> {
        Err(Error::Rusb(rusb::Error::Timeout))
    }
}

#[test]
fn transport_failure_propagates_unchanged() {
    let mut device = Device::new(TimeoutTransport);
    match device.firmware_version() {
        Err(Error::Rusb(e)) => assert_eq!(e, rusb::Error::Timeout),
        other => panic!("expected the transport's error, got {:?}", other.map(|_| ())),
    }
    match device.send(38_000, &[Bit { on: 1, off: 2 }]) {
        Err(Error::Rusb(e)) => assert_eq!(e, rusb::Error::Timeout),
        other => panic!("expected the transport's error, got {:?}", other),
    }
}

#[test]
fn discovery_matches_vendor_or_product() {
    assert!(adir01p::usb::device_matches(0x22EA, 0x0000));
    assert!(adir01p::usb::device_matches(0x0000, 0x003A));
    assert!(adir01p::usb::device_matches(0x22EA, 0x003A));
    assert!(!adir01p::usb::device_matches(0x0000, 0x0000));
    assert!(!adir01p::usb::device_matches(0x003A, 0x22EA));
}
