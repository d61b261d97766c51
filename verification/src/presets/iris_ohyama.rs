pub mod cl_rl1;
pub mod ledhcl_r1;

use vstd::prelude::*;
use crate::codec::Bit;
use crate::presets::preset_pulses;

verus! {

/// Carrier frequency shared by the appliance families of this module, in Hz.
pub fn freq() -> (r: u16)
    ensures
        r == 38000,
{
    38_000
}

/// Pulse sequence of one command, 20 ticks per time unit.
pub(crate) fn bits(bytes: [u8; 5], repeat: usize) -> (r: Vec<Bit>)
    ensures
        r@ == preset_pulses(20, bytes@, repeat as nat),
{
    crate::presets::encode_preset(20, &bytes, repeat)
}

} // verus!
