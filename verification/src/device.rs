use vstd::prelude::*;
use vstd::seq_lib::*;
use vstd::slice::slice_subrange;
use crate::codec::Bit;
use crate::error::Error;
use crate::frame::{
    chunk_count, chunk_of, data_frame, data_frames, drain_from, drain_pending, drain_response,
    is_end_frame, lemma_drain_from_end, lemma_drain_pending_push, parse_version, poll_frame,
    poll_spec,
    recv_start_frame, recv_start_spec, recv_stop_frame, recv_stop_spec, transmit_frame,
    transmit_spec, version_frame, version_spec, write_frames,
};
use crate::frame::{all_ascii, ascii_chars, check_echo, version_bytes};
use crate::transport::Transport;

verus! {

/// A sequence is a prefix of itself extended by anything.
proof fn lemma_prefix_of_extension(a: Seq<Seq<u8>>, b: Seq<Seq<u8>>)
    requires
        a.len() <= b.len(),
        forall|i: int| 0 <= i < a.len() ==> a[i] == b[i],
    ensures
        a.is_prefix_of(b),
{
    assert(a =~= b.subrange(0, a.len() as int));
}

/// One session on the transceiver: it owns the transport for its
/// lifetime and speaks the framed request/response protocol over it.
/// Every exchange blocks until the transport completes or times out,
/// and no operation retries; after a timeout the caller must restart
/// the whole logical operation.
pub struct Device<T: Transport> {
    transport: T,
}

/// A capture in progress: the receiver is armed, the caller owns the
/// wait for the capture window, and `finish` stops the capture and
/// drains the result.
pub struct Recv<'a, T: Transport> {
    /// The session whose receiver is armed, borrowed until the capture
    /// is finished.
    pub device: &'a mut Device<T>,
}

impl<T: Transport> Device<T> {
    /// The transport this session drives.
    pub closed spec fn transport(&self) -> T {
        self.transport
    }

    /// The frames this session has written, oldest first.
    pub open spec fn sent(&self) -> Seq<Seq<u8>> {
        self.transport().sent()
    }

    /// The frames this session has read, oldest first.
    pub open spec fn rcvd(&self) -> Seq<Seq<u8>> {
        self.transport().rcvd()
    }

    /// Wraps an open transport in a session.
    pub fn new(transport: T) -> (r: Device<T>)
        ensures
            r.transport() == transport,
    {
        Device { transport }
    }

    /// One exchange: writes the request frame, reads one response
    /// frame, and accepts the response exactly when its first byte
    /// echoes the request's command byte; a mismatch is
    /// Error::UnexpectedCode and the response is discarded whole, and a
    /// transport failure propagates as Error::Rusb with nothing read.
    fn communicate(&mut self, request: &[u8; 64]) -> (r: Result<[u8; 64], Error>)
        ensures
            final(self).sent() == old(self).sent() || final(self).sent() == old(self).sent().push(
                request@,
            ),
            final(self).rcvd() == old(self).rcvd() || final(self).rcvd() == old(
                self,
            ).rcvd().push(final(self).rcvd().last()),
            final(self).rcvd() != old(self).rcvd() ==> final(self).sent() == old(
                self,
            ).sent().push(request@),
            r matches Ok(resp) ==> {
                &&& final(self).sent() == old(self).sent().push(request@)
                &&& final(self).rcvd() == old(self).rcvd().push(resp@)
                &&& resp@[0] == request@[0]
            },
            (final(self).rcvd() != old(self).rcvd() && final(self).rcvd().last()[0] == request@[0])
                ==> r is Ok,
            r matches Err(e) ==> (e is Rusb || e is UnexpectedCode),
            r matches Err(e) ==> (e is Rusb <==> final(self).rcvd() == old(self).rcvd()),
            r matches Err(Error::UnexpectedCode { actual, expected }) ==> {
                &&& expected == request@[0]
                &&& actual != expected
                &&& final(self).rcvd() != old(self).rcvd()
                &&& final(self).rcvd().last()[0] == actual
            },
    {
        match self.transport.write_frame(request) {
            Ok(()) => {},
            Err(e) => return Err(e),
        }
        match self.transport.read_frame() {
            Ok(response) => check_echo(request[0], response),
            Err(e) => Err(e),
        }
    }

    /// Arms the receiver (command 0x31) at the given carrier frequency
    /// and hands back the capture in progress; on failure the session
    /// keeps its transcript and no capture exists.
    pub fn recv(&mut self, freq: u16) -> (r: Result<Recv<'_, T>, Error>)
        ensures
            r matches Ok(rc) ==> {
                &&& (*rc.device).sent() == old(self).sent().push(recv_start_spec(freq))
                &&& (*rc.device).rcvd() == old(self).rcvd().push((*rc.device).rcvd().last())
                &&& (*rc.device).rcvd().last()[0] == 0x31
            },
            r matches Err(e) ==> {
                &&& (e is Rusb || e is UnexpectedCode)
                &&& (final(self).sent() == old(self).sent() || final(self).sent() == old(
                    self,
                ).sent().push(recv_start_spec(freq)))
                &&& (final(self).rcvd() == old(self).rcvd() || final(self).rcvd().last()[0]
                    != 0x31)
            },
            r matches Err(Error::UnexpectedCode { actual, expected }) ==> expected == 0x31
                && actual != expected
                && final(self).rcvd() != old(self).rcvd()
                && final(self).rcvd().last()[0] == actual,
    {
        match self.recv_start(freq) {
            Ok(()) => Ok(Recv { device: self }),
            Err(e) => Err(e),
        }
    }

    /// Uploads a pulse sequence chunk by chunk (command 0x34) and
    /// starts its playback at the given carrier frequency (command
    /// 0x35): on success exactly the write protocol's frames go out —
    /// the data chunks, the zero-count end marker — followed by the one
    /// playback-start frame.
    pub fn send(&mut self, freq: u16, bits: &[Bit]) -> (r: Result<(), Error>)
        requires
            bits@.len() <= u16::MAX,
        ensures
            old(self).sent().is_prefix_of(final(self).sent()),
            old(self).rcvd().is_prefix_of(final(self).rcvd()),
            r is Ok ==> final(self).sent() == old(self).sent() + write_frames(bits@).push(
                transmit_spec(freq, bits@.len() as u16),
            ),
            r is Err ==> ((forall|i: int|
                old(self).sent().len() <= i < final(self).sent().len() ==> final(self).sent()[i][0]
                    == 0x34) || final(self).sent() == old(self).sent() + write_frames(bits@)
                || final(self).sent() == old(self).sent() + write_frames(bits@).push(
                transmit_spec(freq, bits@.len() as u16),
            )),
            r matches Err(e) ==> (e is Rusb || e is UnexpectedCode),
    {
        match self.write(bits) {
            Ok(()) => {},
            Err(e) => return Err(e),
        }
        let ghost mid = self.sent();
        let r = self.transmit(freq, bits.len());
        proof {
            if r is Err {
                assert(self.sent() == mid || self.sent() == mid.push(
                    transmit_spec(freq, bits@.len() as u16),
                ));
                assert(mid.push(transmit_spec(freq, bits@.len() as u16)) =~= old(self).sent()
                    + write_frames(bits@).push(transmit_spec(freq, bits@.len() as u16)));
            }
        }
        r
    }

    /// Sends the capture-start request.
    fn recv_start(&mut self, freq: u16) -> (r: Result<(), Error>)
        ensures
            final(self).sent() == old(self).sent() || final(self).sent() == old(self).sent().push(
                recv_start_spec(freq),
            ),
            old(self).rcvd().is_prefix_of(final(self).rcvd()),
            r is Ok ==> final(self).sent() == old(self).sent().push(recv_start_spec(freq))
                && final(self).rcvd() == old(self).rcvd().push(final(self).rcvd().last())
                && final(self).rcvd().last()[0] == 0x31,
            (final(self).rcvd() != old(self).rcvd() && final(self).rcvd().last()[0] == 0x31)
                ==> r is Ok,
            r matches Err(e) ==> (e is Rusb || e is UnexpectedCode),
            r matches Err(Error::UnexpectedCode { actual, expected }) ==> expected == 0x31
                && actual != expected
                && final(self).rcvd() != old(self).rcvd()
                && final(self).rcvd().last()[0] == actual,
    {
        let req = recv_start_frame(freq);
        proof {
            assert(req@[0] == 0x31);
            assert(old(self).rcvd().is_prefix_of(old(self).rcvd()));
        }
        match self.communicate(&req) {
            Ok(_) => Ok(()),
            Err(e) => Err(e),
        }
    }

    /// Sends the capture-stop request (command 0x32).
    fn recv_stop(&mut self) -> (r: Result<(), Error>)
        ensures
            final(self).sent() == old(self).sent() || final(self).sent() == old(self).sent().push(
                recv_stop_spec(),
            ),
            old(self).rcvd().is_prefix_of(final(self).rcvd()),
            r is Ok ==> final(self).sent() == old(self).sent().push(recv_stop_spec())
                && final(self).rcvd() == old(self).rcvd().push(final(self).rcvd().last())
                && final(self).rcvd().last()[0] == 0x32,
            (final(self).rcvd() != old(self).rcvd() && final(self).rcvd().last()[0] == 0x32)
                ==> r is Ok,
            r matches Err(e) ==> (e is Rusb || e is UnexpectedCode),
            r matches Err(Error::UnexpectedCode { actual, expected }) ==> expected == 0x32
                && actual != expected
                && final(self).rcvd() != old(self).rcvd()
                && final(self).rcvd().last()[0] == actual,
    {
        let req = recv_stop_frame();
        proof {
            assert(req@[0] == 0x32);
            assert(old(self).rcvd().is_prefix_of(old(self).rcvd()));
        }
        match self.communicate(&req) {
            Ok(_) => Ok(()),
            Err(e) => Err(e),
        }
    }

    /// Drains the captured pulses (command 0x33): every request this
    /// sends is the one poll frame; the buffer announced by the first
    /// data chunk is allocated zeroed and every chunk lands at its own
    /// offset, until the device's end marker (total 0 or no pulses)
    /// completes the capture — `drain_from` is that assembly, response
    /// by response. A response that changes the total or overruns the
    /// buffer, or a device that never sends the end marker within the
    /// 65536-poll budget, is refused as Error::Encoding.
    fn read(&mut self) -> (r: Result<Vec<Bit>, Error>)
        ensures
            old(self).sent().is_prefix_of(final(self).sent()),
            forall|i: int|
                old(self).sent().len() <= i < final(self).sent().len() ==> final(self).sent()[i]
                    == poll_spec(),
            old(self).rcvd().is_prefix_of(final(self).rcvd()),
            r matches Ok(v) ==> {
                &&& drain_from(
                    Seq::empty(),
                    false,
                    final(self).rcvd().skip(old(self).rcvd().len() as int),
                ) == Some(v@)
                &&& v@.len() <= u16::MAX
                &&& final(self).sent().len() - old(self).sent().len() == final(self).rcvd().len()
                    - old(self).rcvd().len()
                &&& final(self).rcvd().len() > old(self).rcvd().len()
                &&& forall|i: int|
                    old(self).rcvd().len() <= i < final(self).rcvd().len()
                        ==> final(self).rcvd()[i][0] == 0x33
                &&& forall|i: int|
                    old(self).rcvd().len() <= i < final(self).rcvd().len() - 1 ==> !is_end_frame(
                        final(self).rcvd()[i],
                    )
                &&& is_end_frame(final(self).rcvd().last())
            },
            r matches Err(e) ==> (e is Rusb || e is UnexpectedCode || e is Encoding),
            r matches Err(Error::UnexpectedCode { actual, expected }) ==> expected == 0x33
                && actual != expected
                && final(self).rcvd() != old(self).rcvd()
                && final(self).rcvd().last()[0] == actual,
            r matches Err(Error::Encoding) ==> (drain_pending(
                Seq::empty(),
                false,
                final(self).rcvd().skip(old(self).rcvd().len() as int),
            ) is None || final(self).rcvd().len() >= old(self).rcvd().len() + 65536),
    {
        let poll_req = poll_frame();
        proof {
            assert(poll_req@[0] == 0x33);
        }
        let mut bits: Vec<Bit> = Vec::new();
        let mut started = false;
        let mut budget: u32 = 65536;
        while budget > 0
            invariant
                poll_req@ == poll_spec(),
                old(self).sent().is_prefix_of(self.sent()),
                forall|i: int|
                    old(self).sent().len() <= i < self.sent().len() ==> self.sent()[i]
                        == poll_spec(),
                old(self).rcvd().is_prefix_of(self.rcvd()),
                drain_pending(
                    Seq::empty(),
                    false,
                    self.rcvd().skip(old(self).rcvd().len() as int),
                ) == Some((bits@, started)),
                bits@.len() <= u16::MAX,
                budget <= 65536,
                self.rcvd().len() == old(self).rcvd().len() + 65536 - budget,
                self.sent().len() - old(self).sent().len() == self.rcvd().len() - old(
                    self,
                ).rcvd().len(),
                forall|i: int|
                    old(self).rcvd().len() <= i < self.rcvd().len() ==> self.rcvd()[i][0] == 0x33
                        && !is_end_frame(self.rcvd()[i]),
            decreases budget,
        {
            budget = budget - 1;
            let ghost pre_rcvd = self.rcvd();
            let ghost delta = self.rcvd().skip(old(self).rcvd().len() as int);
            let resp = match self.communicate(&poll_req) {
                Ok(f) => f,
                Err(e) => return Err(e),
            };
            proof {
                assert(self.rcvd() == pre_rcvd.push(resp@));
                assert(self.rcvd().skip(old(self).rcvd().len() as int) =~= delta.push(resp@));
            }
            let ghost bits0 = bits@;
            let ghost started0 = started;
            let done = match drain_response(&mut bits, started, &resp) {
                Ok(d) => d,
                Err(e) => {
                    proof {
                        lemma_drain_pending_push(Seq::empty(), false, delta, bits0, started0, resp@);
                    }
                    return Err(e);
                },
            };
            if done {
                proof {
                    lemma_drain_from_end(Seq::empty(), false, delta, bits0, started0, resp@);
                }
                return Ok(bits);
            }
            proof {
                lemma_drain_pending_push(Seq::empty(), false, delta, bits0, started0, resp@);
            }
            started = true;
        }
        Err(Error::Encoding)
    }

    /// Uploads the pulse sequence in data frames of at most 14 pulses
    /// each (command 0x34), offsets advancing by each frame's count,
    /// then always one zero-count end frame, even when the sequence is
    /// empty or divides evenly into frames: on success the transcript
    /// grows by exactly `write_frames(bits)`.
    fn write(&mut self, bits: &[Bit]) -> (r: Result<(), Error>)
        requires
            bits@.len() <= u16::MAX,
        ensures
            old(self).sent().is_prefix_of(final(self).sent()),
            old(self).rcvd().is_prefix_of(final(self).rcvd()),
            r is Ok ==> final(self).sent() == old(self).sent() + write_frames(bits@),
            r is Err ==> forall|i: int|
                old(self).sent().len() <= i < final(self).sent().len() ==> final(self).sent()[i][0]
                    == 0x34,
            r matches Err(e) ==> (e is Rusb || e is UnexpectedCode),
            r matches Err(Error::UnexpectedCode { actual, expected }) ==> expected == 0x34
                && actual != expected,
    {
        let ghost len = bits@.len() as int;
        let total = bits.len() as u16;
        let mut offset: usize = 0;
        let mut done = false;
        let ghost mut k: int = 0;
        proof {
            assert(self.sent() =~= old(self).sent() + data_frames(bits@, 0));
            assert(old(self).rcvd().is_prefix_of(old(self).rcvd()));
        }
        while !done
            invariant
                bits@.len() <= u16::MAX,
                len == bits@.len() as int,
                total == bits@.len() as u16,
                offset <= bits@.len(),
                0 <= k <= chunk_count(len),
                offset as int == (if 14 * k <= len {
                    14 * k
                } else {
                    len
                }),
                old(self).rcvd().is_prefix_of(self.rcvd()),
                forall|i: int|
                    old(self).sent().len() <= i < self.sent().len() ==> self.sent()[i][0] == 0x34,
                !done ==> self.sent() == old(self).sent() + data_frames(bits@, k),
                done ==> self.sent() == old(self).sent() + write_frames(bits@),
            decreases len - offset + (if done {
                0int
            } else {
                1int
            }),
        {
            let remaining = bits.len() - offset;
            let chunk_len = if remaining < 14 {
                remaining
            } else {
                14
            };
            let chunk = slice_subrange(bits, offset, offset + chunk_len);
            let req = data_frame(total, offset as u16, chunk);
            proof {
                assert(req@[0] == 0x34);
            }
            if chunk_len > 0 {
                proof {
                    assert(offset as int == 14 * k && 14 * k < len);
                    assert(k < chunk_count(len));
                    assert(chunk@ =~= chunk_of(bits@, k));
                }
                match self.communicate(&req) {
                    Ok(_) => {},
                    Err(e) => {
                        proof {
                            lemma_prefix_of_extension(old(self).sent(), self.sent());
                        }
                        return Err(e);
                    },
                }
                proof {
                    assert(self.sent() =~= old(self).sent() + data_frames(bits@, k + 1));
                    k = k + 1;
                }
                offset = offset + chunk_len;
            } else {
                proof {
                    assert(offset as int == len);
                    assert(k == chunk_count(len));
                    assert(chunk@ =~= Seq::<Bit>::empty());
                    assert(req@ == crate::frame::data_frame_spec(
                        total,
                        total,
                        Seq::<Bit>::empty(),
                    ));
                }
                match self.communicate(&req) {
                    Ok(_) => {},
                    Err(e) => {
                        proof {
                            lemma_prefix_of_extension(old(self).sent(), self.sent());
                        }
                        return Err(e);
                    },
                }
                proof {
                    assert(self.sent() =~= old(self).sent() + write_frames(bits@));
                }
                done = true;
            }
        }
        proof {
            lemma_prefix_of_extension(old(self).sent(), self.sent());
        }
        Ok(())
    }

    /// Sends the playback-start request (command 0x35) for `len`
    /// buffered pulses.
    fn transmit(&mut self, freq: u16, len: usize) -> (r: Result<(), Error>)
        requires
            len <= u16::MAX,
        ensures
            final(self).sent() == old(self).sent() || final(self).sent() == old(self).sent().push(
                transmit_spec(freq, len as u16),
            ),
            old(self).rcvd().is_prefix_of(final(self).rcvd()),
            r is Ok ==> final(self).sent() == old(self).sent().push(transmit_spec(freq, len as u16))
                && final(self).rcvd() == old(self).rcvd().push(final(self).rcvd().last())
                && final(self).rcvd().last()[0] == 0x35,
            (final(self).rcvd() != old(self).rcvd() && final(self).rcvd().last()[0] == 0x35)
                ==> r is Ok,
            r matches Err(e) ==> (e is Rusb || e is UnexpectedCode),
            r matches Err(Error::UnexpectedCode { actual, expected }) ==> expected == 0x35
                && actual != expected
                && final(self).rcvd() != old(self).rcvd()
                && final(self).rcvd().last()[0] == actual,
    {
        let req = transmit_frame(freq, len as u16);
        proof {
            assert(req@[0] == 0x35);
            assert(old(self).rcvd().is_prefix_of(old(self).rcvd()));
        }
        match self.communicate(&req) {
            Ok(_) => Ok(()),
            Err(e) => Err(e),
        }
    }

    /// Queries the firmware version (command 0x56): sends the one
    /// version request; on success the response echoed the command byte
    /// and the result is the ASCII text of its bytes 1..64 truncated at
    /// the first zero byte. A non-ASCII byte before the terminator is
    /// Error::Encoding.
    pub fn firmware_version(&mut self) -> (r: Result<String, Error>)
        ensures
            final(self).sent() == old(self).sent() || final(self).sent() == old(self).sent().push(
                version_spec(),
            ),
            old(self).rcvd().is_prefix_of(final(self).rcvd()),
            r matches Ok(s) ==> {
                &&& final(self).rcvd() == old(self).rcvd().push(final(self).rcvd().last())
                &&& final(self).rcvd().last()[0] == 0x56
                &&& all_ascii(version_bytes(final(self).rcvd().last()))
                &&& s@ == ascii_chars(version_bytes(final(self).rcvd().last()))
            },
            r matches Err(Error::Encoding) ==> {
                &&& final(self).rcvd() == old(self).rcvd().push(final(self).rcvd().last())
                &&& !all_ascii(version_bytes(final(self).rcvd().last()))
            },
            r matches Err(e) ==> (e is Rusb || e is UnexpectedCode || e is Encoding),
            r matches Err(Error::UnexpectedCode { actual, expected }) ==> expected == 0x56
                && actual != expected
                && final(self).rcvd() != old(self).rcvd()
                && final(self).rcvd().last()[0] == actual,
    {
        let req = version_frame();
        proof {
            assert(req@[0] == 0x56);
            assert(old(self).rcvd().is_prefix_of(old(self).rcvd()));
        }
        let resp = match self.communicate(&req) {
            Ok(f) => f,
            Err(e) => return Err(e),
        };
        parse_version(&resp)
    }
}

impl<'a, T: Transport> Recv<'a, T> {
    /// Stops the capture (command 0x32) and drains the pulse buffer,
    /// possibly empty: one stop request goes out, then only chunk
    /// polls, one per response; an accepted buffer is exactly the read
    /// protocol's assembly (`drain_from`) of the polled responses, the
    /// last of which is the end marker. The first failure surfaces
    /// unchanged and no buffer is returned.
    pub fn finish(self) -> (r: Result<Vec<Bit>, Error>)
        ensures
            old(self.device).sent().is_prefix_of(final(self.device).sent()),
            old(self.device).rcvd().is_prefix_of(final(self.device).rcvd()),
            final(self.device).sent().len() > old(self.device).sent().len()
                ==> final(self.device).sent()[old(self.device).sent().len() as int]
                == recv_stop_spec(),
            forall|i: int|
                old(self.device).sent().len() + 1 <= i < final(self.device).sent().len()
                    ==> final(self.device).sent()[i] == poll_spec(),
            r matches Err(e) ==> (e is Rusb || e is UnexpectedCode || e is Encoding),
            r matches Ok(v) ==> {
                &&& final(self.device).sent()[old(self.device).sent().len() as int]
                    == recv_stop_spec()
                &&& final(self.device).rcvd()[old(self.device).rcvd().len() as int][0] == 0x32
                &&& final(self.device).sent().len() - old(self.device).sent().len()
                    == final(self.device).rcvd().len() - old(self.device).rcvd().len()
                &&& final(self.device).rcvd().len() > old(self.device).rcvd().len() + 1
                &&& forall|i: int|
                    old(self.device).rcvd().len() + 1 <= i < final(self.device).rcvd().len()
                        ==> final(self.device).rcvd()[i][0] == 0x33
                &&& forall|i: int|
                    old(self.device).rcvd().len() + 1 <= i < final(self.device).rcvd().len() - 1
                        ==> !is_end_frame(final(self.device).rcvd()[i])
                &&& is_end_frame(final(self.device).rcvd().last())
                &&& drain_from(
                    Seq::empty(),
                    false,
                    final(self.device).rcvd().skip(
                        (old(self.device).rcvd().len() + 1) as int,
                    ),
                ) == Some(v@)
                &&& v@.len() <= u16::MAX
            },
    {
        let ghost sent0 = self.device.sent();
        let ghost rcvd0 = self.device.rcvd();
        match self.device.recv_stop() {
            Ok(()) => {},
            Err(e) => {
                proof {
                    lemma_prefix_of_extension(sent0, self.device.sent());
                    lemma_prefix_of_extension(rcvd0, self.device.rcvd());
                }
                return Err(e);
            },
        }
        proof {
            assert(self.device.sent() == sent0.push(recv_stop_spec()));
            assert(self.device.rcvd().len() == rcvd0.len() + 1);
            assert(self.device.rcvd().last()[0] == 0x32);
        }
        let ghost sent1 = self.device.sent();
        let ghost rcvd1 = self.device.rcvd();
        let r = self.device.read();
        proof {
            assert(sent1.is_prefix_of(self.device.sent()));
            assert(rcvd1.is_prefix_of(self.device.rcvd()));
            assert(forall|i: int|
                0 <= i < sent0.len() ==> self.device.sent()[i] == sent1[i] && sent1[i]
                    == sent0[i]);
            assert(forall|i: int|
                0 <= i < rcvd1.len() ==> self.device.rcvd()[i] == rcvd1[i]);
            lemma_prefix_of_extension(sent0, self.device.sent());
            lemma_prefix_of_extension(rcvd0, self.device.rcvd());
            assert(self.device.sent()[sent0.len() as int] == sent1[sent0.len() as int]);
            assert(self.device.rcvd()[rcvd0.len() as int] == rcvd1[rcvd0.len() as int]);
            if r is Ok {
                assert(self.device.rcvd().skip(rcvd1.len() as int) == self.device.rcvd().skip(
                    (rcvd0.len() + 1) as int,
                ));
            }
        }
        r
    }
}

} // verus!
