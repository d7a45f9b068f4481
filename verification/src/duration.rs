use vstd::prelude::*;
use vstd::arithmetic::power2::{lemma_pow2_adds, lemma_pow2_pos, lemma_pow2_unfold, pow2};

verus! {

/// The duration, in whole nanoseconds (rounded down), that a 32-bit IEEE 754 number of
/// seconds gives, the number taken by its bits. `None` for NaN; zero for negative values
/// (and -0); `u64::MAX` for +infinity and for every value too large for a `u64`.
pub open spec fn seconds_bits_to_nanos(bits: u32) -> Option<u64> {
    let sign = bits / 0x8000_0000;
    let exp = (bits / 0x80_0000) % 0x100;
    let frac = bits % 0x80_0000;
    if exp == 0xFF && frac != 0 {
        None
    } else if sign == 1 {
        Some(0)
    } else if exp == 0xFF {
        Some(u64::MAX)
    } else {
        let m: nat = if exp == 0 { frac as nat } else { (frac + 0x80_0000) as nat };
        let e: nat = if exp == 0 { 1 } else { exp as nat };
        let n: nat = if e >= 150 {
            m * 1_000_000_000 * pow2((e - 150) as nat)
        } else {
            m * 1_000_000_000 / pow2((150 - e) as nat)
        };
        Some(if n > u64::MAX { u64::MAX } else { n as u64 })
    }
}

proof fn lemma_pow2_zero()
    ensures
        pow2(0) == 1,
{
    vstd::arithmetic::power2::lemma_pow2(0);
    vstd::arithmetic::power::lemma_pow0(2);
}

/// Converts a duration in seconds, given as the bits of a 32-bit IEEE 754 number, to
/// nanoseconds (see `seconds_bits_to_nanos`).
pub fn duration_nanos_from_bits(bits: u32) -> (nanos: Option<u64>)
    ensures
        nanos == seconds_bits_to_nanos(bits),
{
    let sign = bits / 0x8000_0000;
    let exp = (bits / 0x80_0000) % 0x100;
    let frac = bits % 0x80_0000;
    if exp == 0xFF && frac != 0 {
        return None;
    }
    if sign == 1 {
        return Some(0);
    }
    if exp == 0xFF {
        return Some(u64::MAX);
    }
    let m: u128 = if exp == 0 { frac as u128 } else { (frac + 0x80_0000) as u128 };
    let e: u32 = if exp == 0 { 1 } else { exp };
    let scaled: u128 = m * 1_000_000_000;
    proof {
        lemma_pow2_zero();
    }
    if e >= 150 {
        let k: u32 = e - 150;
        let mut v: u128 = scaled;
        let mut i: u32 = 0;
        while i < k
            invariant
                i <= k,
                scaled == m * 1_000_000_000,
                m < 0x100_0000,
                v == scaled * pow2(i as nat),
                v <= u64::MAX,
                seconds_bits_to_nanos(bits) == Some(
                    if scaled * pow2(k as nat) > u64::MAX { u64::MAX } else { (scaled * pow2(k as nat)) as u64 },
                ),
            decreases k - i,
        {
            proof {
                lemma_pow2_unfold((i + 1) as nat);
            }
            if v * 2 > u64::MAX as u128 {
                proof {
                    let rest = (k - i) as nat;
                    lemma_pow2_adds(i as nat, rest);
                    lemma_pow2_unfold(rest);
                    lemma_pow2_pos((rest - 1) as nat);
                    assert(pow2(rest) >= 2);
                    assert(v * pow2(rest) >= v * 2) by (nonlinear_arith)
                        requires
                            pow2(rest) >= 2,
                            v >= 0,
                    ;
                    assert(scaled * pow2(k as nat) == v * pow2(rest)) by (nonlinear_arith)
                        requires
                            v == scaled * pow2(i as nat),
                            pow2(k as nat) == pow2(i as nat) * pow2(rest),
                    ;
                }
                return Some(u64::MAX);
            }
            assert(v * 2 == scaled * pow2((i + 1) as nat)) by (nonlinear_arith)
                requires
                    v == scaled * pow2(i as nat),
                    pow2((i + 1) as nat) == 2 * pow2(i as nat),
            ;
            v = v * 2;
            i = i + 1;
        }
        Some(v as u64)
    } else {
        let k: u32 = 150 - e;
        let mut v: u128 = scaled;
        let mut i: u32 = 0;
        while i < k
            invariant
                i <= k,
                scaled == m * 1_000_000_000,
                m < 0x100_0000,
                v == (scaled as nat) / pow2(i as nat),
            decreases k - i,
        {
            proof {
                lemma_pow2_unfold((i + 1) as nat);
                lemma_pow2_pos(i as nat);
                vstd::arithmetic::div_mod::lemma_div_denominator(scaled as int, pow2(i as nat) as int, 2);
            }
            v = v / 2;
            i = i + 1;
        }
        proof {
            lemma_pow2_pos(k as nat);
            vstd::arithmetic::div_mod::lemma_div_is_ordered_by_denominator(scaled as int, 1, pow2(k as nat) as int);
        }
        Some(v as u64)
    }
}

/// Fixed points of the conversion: the bits of 0.5, 1.0, 20.0 and 35.0 seconds, and of 0,
/// give exactly those durations.
pub proof fn lemma_duration_anchors()
    ensures
        seconds_bits_to_nanos(0x3F00_0000) == Some(500_000_000u64),
        seconds_bits_to_nanos(0x3F80_0000) == Some(1_000_000_000u64),
        seconds_bits_to_nanos(0x41A0_0000) == Some(20_000_000_000u64),
        seconds_bits_to_nanos(0x420C_0000) == Some(35_000_000_000u64),
        seconds_bits_to_nanos(0) == Some(0u64),
{
    vstd::arithmetic::power2::lemma2_to64();
    assert(0x80_0000 * 1_000_000_000 / pow2(24) == 500_000_000);
    assert(0x80_0000 * 1_000_000_000 / pow2(23) == 1_000_000_000);
    assert(0xA0_0000 * 1_000_000_000 / pow2(19) == 20_000_000_000);
    assert(0x8C_0000 * 1_000_000_000 / pow2(18) == 35_000_000_000);
    assert(0 * 1_000_000_000 / pow2(149) == 0) by {
        lemma_pow2_pos(149);
    }
}

} // verus!
