use seabed::bfloat::bf16_to_f32_bits;
use seabed::bfloat::f32_bits_to_bf16;

#[test]
fn narrows_exact_values_by_dropping_the_low_half() {
    assert_eq!(f32_bits_to_bf16(1.0f32.to_bits()), 0x3F80);
    assert_eq!(f32_bits_to_bf16((-2.0f32).to_bits()), 0xC000);
    assert_eq!(f32_bits_to_bf16(0), 0);
    assert_eq!(f32_bits_to_bf16(0x7F80_0000), 0x7F80);
    assert_eq!(f32_bits_to_bf16(0xFF80_0000), 0xFF80);
}

#[test]
fn narrows_to_nearest_ties_to_even() {
    // exactly half-way, kept half even: stays
    assert_eq!(f32_bits_to_bf16(0x3F80_8000), 0x3F80);
    // exactly half-way, kept half odd: goes up to even
    assert_eq!(f32_bits_to_bf16(0x3F81_8000), 0x3F82);
    // above half-way: goes up
    assert_eq!(f32_bits_to_bf16(0x3F80_8001), 0x3F81);
    assert_eq!(f32_bits_to_bf16(0x3F80_FFFF), 0x3F81);
    // below half-way: stays
    assert_eq!(f32_bits_to_bf16(0x3F80_7FFF), 0x3F80);
    assert_eq!(f32_bits_to_bf16(3.14159f32.to_bits()), 0x4049);
}

#[test]
fn narrowing_keeps_nan_quiet() {
    assert_eq!(f32_bits_to_bf16(0x7FC0_0001), 0x7FC0);
    assert_eq!(f32_bits_to_bf16(0x7F80_0001), 0x7FC0);
    assert_eq!(f32_bits_to_bf16(0xFF81_0000), 0xFFC1);
}

#[test]
fn widens_into_the_upper_half() {
    assert_eq!(bf16_to_f32_bits(0x3F80), 0x3F80_0000);
    assert_eq!(f32::from_bits(bf16_to_f32_bits(0x3F80)), 1.0);
    assert_eq!(bf16_to_f32_bits(0xC000), 0xC000_0000);
    assert_eq!(bf16_to_f32_bits(0x7F80), 0x7F80_0000);
    assert_eq!(bf16_to_f32_bits(0x7F81), 0x7FC1_0000);
    assert_eq!(bf16_to_f32_bits(0x7FC1), 0x7FC1_0000);
}

#[test]
fn narrowing_a_widened_value_gives_it_back() {
    for h in 0..=u16::MAX {
        let back = f32_bits_to_bf16(bf16_to_f32_bits(h));
        if h & 0x7FFF > 0x7F80 {
            assert_eq!(back, h | 0x40);
        } else {
            assert_eq!(back, h);
        }
    }
}
