use vstd::prelude::*;
use crate::codec::Bit;
use crate::presets::preset_pulses;

verus! {

/// Carrier frequency of this appliance family, in Hz.
pub fn freq() -> (r: u16)
    ensures
        r == 38000,
{
    38_000
}

/// Toggles the main power on channel 1.
pub fn power_ch1(repeat: usize) -> (r: Vec<Bit>)
    ensures
        r@ == preset_pulses(
            20,
            seq![0b10000000u8, 0b10001000u8, 0b00000000u8, 0b00000000u8, 0b01010010u8],
            repeat as nat,
        ),
{
    bits([0b10000000, 0b10001000, 0b00000000, 0b00000000, 0b01010010], repeat)
}

/// Steps through the dimming levels on channel 1.
pub fn dimming_ch1(repeat: usize) -> (r: Vec<Bit>)
    ensures
        r@ == preset_pulses(
            20,
            seq![0b10000000u8, 0b10000100u8, 0b00000000u8, 0b00000000u8, 0b01011110u8],
            repeat as nat,
        ),
{
    bits([0b10000000, 0b10000100, 0b00000000, 0b00000000, 0b01011110], repeat)
}

/// Switches to the night light on channel 1.
pub fn night_light_ch1(repeat: usize) -> (r: Vec<Bit>)
    ensures
        r@ == preset_pulses(
            20,
            seq![0b10000000u8, 0b10000010u8, 0b00000000u8, 0b00000000u8, 0b01011000u8],
            repeat as nat,
        ),
{
    bits([0b10000000, 0b10000010, 0b00000000, 0b00000000, 0b01011000], repeat)
}

/// Pulse sequence of one command, 20 ticks per time unit.
pub(crate) fn bits(bytes: [u8; 5], repeat: usize) -> (r: Vec<Bit>)
    ensures
        r@ == preset_pulses(20, bytes@, repeat as nat),
{
    crate::presets::encode_preset(20, &bytes, repeat)
}

} // verus!
