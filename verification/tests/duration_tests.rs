use mobinogi_timer::duration::duration_nanos_from_bits;

#[test]
fn whole_and_fractional_seconds() {
    assert_eq!(duration_nanos_from_bits(20.0f32.to_bits()), Some(20_000_000_000));
    assert_eq!(duration_nanos_from_bits(35.0f32.to_bits()), Some(35_000_000_000));
    assert_eq!(duration_nanos_from_bits(12.5f32.to_bits()), Some(12_500_000_000));
    assert_eq!(duration_nanos_from_bits(0.0f32.to_bits()), Some(0));
    // 0.1 as an f32 is 0.100000001490116...; rounded down to whole nanoseconds.
    assert_eq!(duration_nanos_from_bits(0.1f32.to_bits()), Some(100_000_001));
    // The smallest subnormal is far below a nanosecond.
    assert_eq!(duration_nanos_from_bits(1), Some(0));
}

#[test]
fn special_values() {
    assert_eq!(duration_nanos_from_bits(f32::NAN.to_bits()), None);
    assert_eq!(duration_nanos_from_bits((-3.0f32).to_bits()), Some(0));
    assert_eq!(duration_nanos_from_bits((-0.0f32).to_bits()), Some(0));
    assert_eq!(duration_nanos_from_bits(f32::INFINITY.to_bits()), Some(u64::MAX));
    assert_eq!(duration_nanos_from_bits(f32::NEG_INFINITY.to_bits()), Some(0));
    assert_eq!(duration_nanos_from_bits(f32::MAX.to_bits()), Some(u64::MAX));
    // 2^34 s is about 1.7e19 ns, just under u64::MAX; 2^35 s is over it.
    assert_eq!(duration_nanos_from_bits(17179869184.0f32.to_bits()), Some(17_179_869_184_000_000_000));
    assert_eq!(duration_nanos_from_bits(34359738368.0f32.to_bits()), Some(u64::MAX));
}
