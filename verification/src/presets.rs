pub mod iris_ohyama;
pub mod ledhcl_r1;

use vstd::prelude::*;
use crate::codec::Bit;

verus! {

/// Leading AGC burst of every preset sequence.
pub open spec fn lead_pulse(t: u16) -> Bit
    recommends
        4 * t <= u16::MAX,
{
    Bit { on: (4 * t) as u16, off: (2 * t) as u16 }
}

/// Preamble burst that opens each repetition.
pub open spec fn rep_preamble(t: u16) -> Bit
    recommends
        11 * t <= u16::MAX,
{
    Bit { on: (11 * t) as u16, off: (2 * t) as u16 }
}

/// Trailing gap that closes each repetition.
pub open spec fn trail_pulse(t: u16) -> Bit
    recommends
        18 * t <= u16::MAX,
{
    Bit { on: t, off: (18 * t) as u16 }
}

/// Whether bit `k` (0 = least significant) of `byte` is set.
pub open spec fn bit_set(byte: u8, k: u8) -> bool
    recommends
        k < 8,
{
    byte & (1u8 << k) != 0
}

/// The pulse carrying one data bit: the value lives in the mark length,
/// the space length is always one time unit.
pub open spec fn bit_pulse(t: u16, one: bool) -> Bit
    recommends
        3 * t <= u16::MAX,
{
    if one {
        Bit { on: (3 * t) as u16, off: t }
    } else {
        Bit { on: t, off: t }
    }
}

/// The 8 pulses of one command byte, most-significant bit first.
pub open spec fn byte_pulses(t: u16, byte: u8) -> Seq<Bit> {
    Seq::new(8, |j: int| bit_pulse(t, bit_set(byte, (7 - j) as u8)))
}

/// The pulses of the first `n` command bytes, in order.
pub open spec fn bytes_pulses(t: u16, bytes: Seq<u8>, n: int) -> Seq<Bit>
    recommends
        0 <= n <= bytes.len(),
    decreases n,
{
    if n <= 0 {
        Seq::empty()
    } else {
        bytes_pulses(t, bytes, n - 1) + byte_pulses(t, bytes[n - 1])
    }
}

/// One repetition block: preamble, the 40 data bits of the 5 command
/// bytes, then the trailing gap.
pub open spec fn rep_pulses(t: u16, bytes: Seq<u8>) -> Seq<Bit>
    recommends
        bytes.len() == 5,
{
    seq![rep_preamble(t)] + bytes_pulses(t, bytes, 5) + seq![trail_pulse(t)]
}

/// The whole preset sequence: the AGC lead, then `repeat` repetition
/// blocks.
pub open spec fn preset_pulses(t: u16, bytes: Seq<u8>, repeat: nat) -> Seq<Bit>
    recommends
        bytes.len() == 5,
    decreases repeat,
{
    if repeat == 0 {
        seq![lead_pulse(t)]
    } else {
        preset_pulses(t, bytes, (repeat - 1) as nat) + rep_pulses(t, bytes)
    }
}

/// The first `n` command bytes yield exactly `8 * n` pulses.
pub proof fn lemma_bytes_pulses_len(t: u16, bytes: Seq<u8>, n: int)
    requires
        0 <= n <= bytes.len(),
    ensures
        bytes_pulses(t, bytes, n).len() == 8 * n,
    decreases n,
{
    if n > 0 {
        lemma_bytes_pulses_len(t, bytes, n - 1);
    }
}

/// One repetition block holds exactly 42 pulses: the preamble, 40 data
/// bits (5 bytes of 8), and the trailing gap.
pub proof fn lemma_rep_pulses_len(t: u16, bytes: Seq<u8>)
    requires
        bytes.len() == 5,
    ensures
        rep_pulses(t, bytes).len() == 42,
{
    lemma_bytes_pulses_len(t, bytes, 5);
}

/// Preset length: the lead pulse alone when `repeat` is 0, else
/// `1 + repeat * 42`.
pub proof fn lemma_preset_len(t: u16, bytes: Seq<u8>, repeat: nat)
    requires
        bytes.len() == 5,
    ensures
        preset_pulses(t, bytes, repeat).len() == 1 + repeat * 42,
    decreases repeat,
{
    if repeat > 0 {
        lemma_preset_len(t, bytes, (repeat - 1) as nat);
        lemma_rep_pulses_len(t, bytes);
    }
}

/// Among the data pulses, bit `j` (most-significant first) of command
/// byte `i` stands at index `8 * i + j`.
pub proof fn lemma_bytes_pulses_index(t: u16, bytes: Seq<u8>, n: int, i: int, j: int)
    requires
        0 <= n <= bytes.len(),
        0 <= i < n,
        0 <= j < 8,
    ensures
        bytes_pulses(t, bytes, n)[8 * i + j] == bit_pulse(t, bit_set(bytes[i], (7 - j) as u8)),
    decreases n,
{
    lemma_bytes_pulses_len(t, bytes, n - 1);
    if i < n - 1 {
        lemma_bytes_pulses_index(t, bytes, n - 1, i, j);
    }
}

/// Bit encoding within one repetition block: bit `j` of byte `i`,
/// most-significant bit first, stands at index `1 + 8 * i + j` and is
/// `(T, T)` when clear, `(3T, T)` when set.
pub proof fn lemma_rep_bit_encoding(t: u16, bytes: Seq<u8>, i: int, j: int)
    requires
        bytes.len() == 5,
        0 <= i < 5,
        0 <= j < 8,
    ensures
        rep_pulses(t, bytes)[1 + 8 * i + j] == bit_pulse(t, bit_set(bytes[i], (7 - j) as u8)),
{
    lemma_bytes_pulses_len(t, bytes, 5);
    lemma_bytes_pulses_index(t, bytes, 5, i, j);
}

/// Repetition block `r` of a preset stands at indices
/// `1 + r * 42 .. 1 + r * 42 + 42`.
pub proof fn lemma_preset_block(t: u16, bytes: Seq<u8>, repeat: nat, r: nat)
    requires
        bytes.len() == 5,
        r < repeat,
    ensures
        1 + r * 42 + 42 <= preset_pulses(t, bytes, repeat).len(),
        preset_pulses(t, bytes, repeat).subrange(1 + r * 42 as int, 1 + r * 42 + 42 as int) == rep_pulses(
            t,
            bytes,
        ),
    decreases repeat,
{
    lemma_preset_len(t, bytes, repeat);
    lemma_rep_pulses_len(t, bytes);
    if r == repeat - 1 {
        lemma_preset_len(t, bytes, (repeat - 1) as nat);
        assert(preset_pulses(t, bytes, repeat).subrange(1 + r * 42 as int, 1 + r * 42 + 42 as int)
            =~= rep_pulses(t, bytes));
    } else {
        lemma_preset_block(t, bytes, (repeat - 1) as nat, r);
        lemma_preset_len(t, bytes, (repeat - 1) as nat);
        assert(preset_pulses(t, bytes, repeat).subrange(1 + r * 42 as int, 1 + r * 42 + 42 as int)
            =~= preset_pulses(t, bytes, (repeat - 1) as nat).subrange(
            1 + r * 42 as int,
            1 + r * 42 + 42 as int,
        ));
    }
}

/// Preset generation is deterministic: the pulse sequence is a function
/// of the code table, the time unit and the repeat count alone.
pub proof fn lemma_preset_deterministic(
    a: Seq<Bit>,
    b: Seq<Bit>,
    t: u16,
    bytes: Seq<u8>,
    repeat: nat,
)
    requires
        a == preset_pulses(t, bytes, repeat),
        b == preset_pulses(t, bytes, repeat),
    ensures
        a == b,
{
}

/// Builds the pulse sequence of one preset: the AGC lead, then `repeat`
/// repetitions of preamble, 40 data bits and trailing gap.
pub(crate) fn encode_preset(t: u16, bytes: &[u8; 5], repeat: usize) -> (r: Vec<Bit>)
    requires
        18 * t <= u16::MAX,
    ensures
        r@ == preset_pulses(t, bytes@, repeat as nat),
{
    let mut out: Vec<Bit> = Vec::new();
    out.push(Bit { on: 4 * t, off: 2 * t });
    proof {
        assert(out@ =~= preset_pulses(t, bytes@, 0));
    }
    let mut i: usize = 0;
    while i < repeat
        invariant
            i <= repeat,
            18 * t <= u16::MAX,
            out@ == preset_pulses(t, bytes@, i as nat),
        decreases repeat - i,
    {
        let ghost base = out@;
        out.push(Bit { on: 11 * t, off: 2 * t });
        let mut b: usize = 0;
        while b < 5
            invariant
                b <= 5,
                18 * t <= u16::MAX,
                out@ == base + seq![rep_preamble(t)] + bytes_pulses(t, bytes@, b as int),
            decreases 5 - b,
        {
            let byte = bytes[b];
            let ghost byte_base = out@;
            let mut j: usize = 0;
            while j < 8
                invariant
                    j <= 8,
                    18 * t <= u16::MAX,
                    byte == bytes@[b as int],
                    b < 5,
                    byte_base == base + seq![rep_preamble(t)] + bytes_pulses(t, bytes@, b as int),
                    out@ == byte_base + byte_pulses(t, byte).take(j as int),
                decreases 8 - j,
            {
                let k: u8 = (7 - j) as u8;
                let mask: u8 = 1u8 << k;
                let p = if byte & mask == 0 {
                    Bit { on: t, off: t }
                } else {
                    Bit { on: 3 * t, off: t }
                };
                proof {
                    assert(p == bit_pulse(t, bit_set(byte, k)));
                    assert(byte_pulses(t, byte).take(j + 1) =~= byte_pulses(t, byte).take(j as int)
                        + seq![byte_pulses(t, byte)[j as int]]);
                }
                out.push(p);
                j += 1;
            }
            proof {
                assert(byte_pulses(t, byte).take(8) =~= byte_pulses(t, byte));
                assert(out@ =~= base + seq![rep_preamble(t)] + bytes_pulses(
                    t,
                    bytes@,
                    b as int + 1,
                ));
            }
            b += 1;
        }
        out.push(Bit { on: t, off: 18 * t });
        proof {
            assert(out@ =~= preset_pulses(t, bytes@, (i + 1) as nat));
        }
        i += 1;
    }
    out
}

} // verus!
