use adir01p::codec::{decode_pulse, decode_u16, encode_pulse, encode_u16};
use adir01p::Bit;

#[test]
fn codec_round_trip_corners() {
    for &(on, off) in &[
        (0u16, 0u16),
        (65535, 65535),
        (0, 65535),
        (65535, 0),
        (0x1234, 0xABCD),
        (1, 2),
        (255, 256),
    ] {
        let p = Bit { on, off };
        let q = decode_pulse(encode_pulse(p));
        assert_eq!(q, p);
    }
}

#[test]
fn codec_exact_bytes() {
    let b = encode_pulse(Bit {
        on: 0x1234,
        off: 0xABCD,
    });
    assert_eq!(b, [0x12, 0x34, 0xAB, 0xCD]);
    let b = encode_pulse(Bit { on: 1, off: 65535 });
    assert_eq!(b, [0x00, 0x01, 0xFF, 0xFF]);
}

#[test]
fn codec_u16_halves() {
    assert_eq!(encode_u16(0x0102), (0x01, 0x02));
    assert_eq!(encode_u16(0), (0, 0));
    assert_eq!(encode_u16(0xFFFF), (0xFF, 0xFF));
    assert_eq!(decode_u16(0xFF, 0x01), 0xFF01);
    assert_eq!(decode_u16(0x00, 0x00), 0);
}
