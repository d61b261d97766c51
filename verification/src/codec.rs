use vstd::prelude::*;

verus! {

/// One mark/space cycle of an infrared waveform, in device tick units:
/// the emitter is driven for `on` ticks, then idle for `off` ticks.
#[derive(Clone, Copy, Debug, PartialEq, Eq, Structural)]
pub struct Bit {
    pub on: u16,
    pub off: u16,
}

/// High byte of a 16-bit value in big-endian order.
pub open spec fn be_hi(x: u16) -> u8 {
    (x / 256) as u8
}

/// Low byte of a 16-bit value in big-endian order.
pub open spec fn be_lo(x: u16) -> u8 {
    (x % 256) as u8
}

/// The 16-bit value carried by two big-endian bytes.
pub open spec fn be_u16(hi: u8, lo: u8) -> u16 {
    (hi * 256 + lo) as u16
}

/// The exact 4-byte wire encoding of one pulse: big-endian `on`, then
/// big-endian `off`.
pub open spec fn pulse_bytes(p: Bit) -> Seq<u8> {
    seq![be_hi(p.on), be_lo(p.on), be_hi(p.off), be_lo(p.off)]
}

/// The pulse read back from its 4 wire bytes.
pub open spec fn pulse_of_bytes(b: Seq<u8>) -> Bit
    recommends
        b.len() == 4,
{
    Bit { on: be_u16(b[0], b[1]), off: be_u16(b[2], b[3]) }
}

/// Splits a 16-bit value into its big-endian byte pair.
pub fn encode_u16(x: u16) -> (r: (u8, u8))
    ensures
        r.0 == be_hi(x),
        r.1 == be_lo(x),
{
    ((x / 256) as u8, (x % 256) as u8)
}

/// Reassembles a 16-bit value from its big-endian byte pair.
pub fn decode_u16(hi: u8, lo: u8) -> (r: u16)
    ensures
        r == be_u16(hi, lo),
{
    (hi as u16) * 256 + (lo as u16)
}

/// Encodes one pulse as its 4 wire bytes.
pub fn encode_pulse(p: Bit) -> (r: [u8; 4])
    ensures
        r@ == pulse_bytes(p),
{
    let r = [(p.on / 256) as u8, (p.on % 256) as u8, (p.off / 256) as u8, (p.off % 256) as u8];
    proof {
        assert(r@ =~= pulse_bytes(p));
    }
    r
}

/// Decodes one pulse from its 4 wire bytes.
pub fn decode_pulse(b: [u8; 4]) -> (r: Bit)
    ensures
        r == pulse_of_bytes(b@),
{
    Bit { on: decode_u16(b[0], b[1]), off: decode_u16(b[2], b[3]) }
}

/// Round trip of the big-endian byte pair: the two bytes of any 16-bit
/// value reassemble to that value exactly.
pub proof fn lemma_be_round_trip(x: u16)
    ensures
        be_u16(be_hi(x), be_lo(x)) == x,
{
}

/// Round trip of the pulse codec: decoding the 4-byte encoding of any
/// pulse gives that pulse back exactly.
pub proof fn lemma_pulse_round_trip(p: Bit)
    ensures
        pulse_of_bytes(pulse_bytes(p)) == p,
{
    lemma_be_round_trip(p.on);
    lemma_be_round_trip(p.off);
}

} // verus!
