use adir01p::presets::iris_ohyama;
use adir01p::presets::ledhcl_r1;
use adir01p::Bit;

const T: u16 = 20;

#[test]
fn preset_freq_is_38khz() {
    assert_eq!(iris_ohyama::freq(), 38_000);
    assert_eq!(iris_ohyama::cl_rl1::freq(), 38_000);
    assert_eq!(iris_ohyama::ledhcl_r1::freq(), 38_000);
    assert_eq!(ledhcl_r1::freq(), 38_000);
}

#[test]
fn preset_length_no_repeat_is_lead_alone() {
    assert_eq!(ledhcl_r1::power_ch1(0).len(), 1);
    assert_eq!(ledhcl_r1::power_ch1(0)[0], Bit { on: 4 * T, off: 2 * T });
    assert_eq!(iris_ohyama::cl_rl1::off_on_night_light_ch1(0).len(), 1);
}

#[test]
fn preset_length_grows_42_per_repeat() {
    assert_eq!(ledhcl_r1::power_ch1(1).len(), 1 + 42);
    assert_eq!(ledhcl_r1::dimming_ch1(2).len(), 1 + 2 * 42);
    assert_eq!(ledhcl_r1::night_light_ch1(5).len(), 1 + 5 * 42);
    assert_eq!(iris_ohyama::cl_rl1::off_on_night_light_ch1(3).len(), 1 + 3 * 42);
}

#[test]
fn preset_deterministic() {
    let a = ledhcl_r1::night_light_ch1(2);
    let b = ledhcl_r1::night_light_ch1(2);
    assert_eq!(a, b);
    let c = iris_ohyama::cl_rl1::off_on_night_light_ch1(4);
    let d = iris_ohyama::cl_rl1::off_on_night_light_ch1(4);
    assert_eq!(c, d);
}

#[test]
fn preset_families_share_tables() {
    assert_eq!(iris_ohyama::ledhcl_r1::power_ch1(2), ledhcl_r1::power_ch1(2));
    assert_eq!(iris_ohyama::ledhcl_r1::dimming_ch1(1), ledhcl_r1::dimming_ch1(1));
    assert_eq!(iris_ohyama::ledhcl_r1::night_light_ch1(3), ledhcl_r1::night_light_ch1(3));
}

#[test]
fn preset_bit_encoding_power_ch1() {
    // Code table 0b10000000, 0b10001000, 0, 0, 0b01010010: bits are laid
    // out most-significant first, (T,T) for 0 and (3T,T) for 1.
    let r = ledhcl_r1::power_ch1(1);
    assert_eq!(r.len(), 43);
    assert_eq!(r[0], Bit { on: 4 * T, off: 2 * T });
    assert_eq!(r[1], Bit { on: 11 * T, off: 2 * T });
    let one = Bit { on: 3 * T, off: T };
    let zero = Bit { on: T, off: T };
    let one_positions = [2, 10, 14, 35, 37, 40];
    for i in 2..42 {
        if one_positions.contains(&i) {
            assert_eq!(r[i], one, "index {}", i);
        } else {
            assert_eq!(r[i], zero, "index {}", i);
        }
    }
    assert_eq!(r[42], Bit { on: T, off: 18 * T });
}

#[test]
fn preset_bit_encoding_dimming_trailer() {
    // 0b10000100 in the second byte: ones at bit positions 10 and 15.
    let r = ledhcl_r1::dimming_ch1(1);
    let one = Bit { on: 3 * T, off: T };
    assert_eq!(r[10], one);
    assert_eq!(r[15], one);
    assert_eq!(r[42], Bit { on: T, off: 18 * T });
}
