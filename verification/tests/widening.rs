use rusty_panda::data::widen::widen;

fn expected(bits: u32) -> u64 {
    (f32::from_bits(bits) as f64).to_bits()
}

#[test]
fn widen_gives_the_known_doubles() {
    assert_eq!(widen(0x3F80_0000), 0x3FF0_0000_0000_0000);
    assert_eq!(widen(0x0000_0000), 0x0000_0000_0000_0000);
    assert_eq!(widen(0x8000_0000), 0x8000_0000_0000_0000);
    assert_eq!(widen(0x0000_0001), 0x36A0_0000_0000_0000);
    assert_eq!(widen(0x8000_0001), 0xB6A0_0000_0000_0000);
    assert_eq!(widen(0x007F_FFFF), 0x380F_FFFF_C000_0000);
    assert_eq!(widen(0x0040_0000), 0x3800_0000_0000_0000);
    assert_eq!(widen(0x7F80_0000), 0x7FF0_0000_0000_0000);
    assert_eq!(widen(0xFF80_0000), 0xFFF0_0000_0000_0000);
    assert_eq!(widen(0x7FC0_0000), 0x7FF8_0000_0000_0000);
    assert_eq!(widen(0x3DCC_CCCD), 0x3FB9_9999_A000_0000);
}

#[test]
fn widen_keeps_the_value_of_every_number() {
    let mut bits: u32 = 0;
    loop {
        let number = f32::from_bits(bits);
        if !number.is_nan() {
            assert_eq!(widen(bits), expected(bits), "{:#010x}", bits);
            assert_eq!(f64::from_bits(widen(bits)), number as f64);
        }
        match bits.checked_add(0x0001_0003) {
            Some(next) => bits = next,
            None => break,
        }
    }
}

#[test]
fn widen_keeps_every_subnormal_and_its_neighbours() {
    for bits in (0u32..0x0080_0100).step_by(97) {
        assert_eq!(widen(bits), expected(bits), "{:#010x}", bits);
        let negative = bits | 0x8000_0000;
        assert_eq!(widen(negative), expected(negative), "{:#010x}", negative);
    }
    for shift in 0..23 {
        let bits = 1u32 << shift;
        assert_eq!(widen(bits), expected(bits), "{:#010x}", bits);
    }
}

#[test]
fn widen_turns_a_nan_into_a_quiet_nan_with_its_payload() {
    for bits in [0x7FC0_0000u32, 0x7F80_0001, 0x7FFF_FFFF, 0xFFC0_1234, 0xFF80_0100] {
        let wide = widen(bits);
        assert!(f64::from_bits(wide).is_nan());
        assert_eq!(wide >> 63, (bits >> 31) as u64);
        assert_eq!(wide & 0x0008_0000_0000_0000, 0x0008_0000_0000_0000);
        assert_eq!((wide >> 29) & 0x3F_FFFF, (bits & 0x3F_FFFF) as u64);
    }
}
