pub use super::freq;

use vstd::prelude::*;
use crate::codec::Bit;
use crate::presets::preset_pulses;

verus! {

/// Toggles between off, on and the night light on channel 1.
pub fn off_on_night_light_ch1(repeat: usize) -> (r: Vec<Bit>)
    ensures
        r@ == preset_pulses(
            20,
            seq![0b11000000u8, 0b10000001u8, 0b01000000u8, 0b00000000u8, 0b01011011u8],
            repeat as nat,
        ),
{
    super::bits([0b11000000, 0b10000001, 0b01000000, 0b00000000, 0b01011011], repeat)
}

} // verus!
