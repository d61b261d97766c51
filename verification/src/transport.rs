use vstd::prelude::*;
use crate::error::Error;

verus! {

/// Blocking duplex framed I/O, the one capability a session needs from
/// the wire: write one fixed 64-byte frame, read one, each bounded by
/// the transport's own timeout. The two ghost transcripts record every
/// frame that crossed the wire, so the session's contracts can say
/// exactly which requests go out and how each response is treated; an
/// implementation decides the frames' contents freely, and the protocol
/// layer is verified for every possible response.
pub trait Transport {
    /// The frames written so far, oldest first. An implementation
    /// overrides this with its own transcript; the default stands for
    /// impls outside the verifier's view, which no proof consults.
    open spec fn sent(&self) -> Seq<Seq<u8>> {
        Seq::empty()
    }

    /// The frames read so far, oldest first.
    open spec fn rcvd(&self) -> Seq<Seq<u8>> {
        Seq::empty()
    }

    /// Writes one 64-byte frame, blocking at most the transport's
    /// timeout. A failure is transport-level (Error::Rusb), and then
    /// nothing was written.
    fn write_frame(&mut self, frame: &[u8; 64]) -> (r: Result<(), Error>)
        ensures
            r is Ok ==> final(self).sent() == old(self).sent().push(frame@),
            r is Err ==> final(self).sent() == old(self).sent(),
            r matches Err(e) ==> e is Rusb,
            final(self).rcvd() == old(self).rcvd(),
    ;

    /// Reads one 64-byte frame, blocking at most the transport's
    /// timeout. A failure is transport-level (Error::Rusb), and then
    /// nothing was read.
    fn read_frame(&mut self) -> (r: Result<[u8; 64], Error>)
        ensures
            r matches Ok(f) ==> final(self).rcvd() == old(self).rcvd().push(f@),
            r is Err ==> final(self).rcvd() == old(self).rcvd(),
            r matches Err(e) ==> e is Rusb,
            final(self).sent() == old(self).sent(),
    ;
}

} // verus!
