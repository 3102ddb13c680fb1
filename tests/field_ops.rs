use gf_commit::field::{bit_mask, cond_xor, fe_xor, lift_byte, mul_byte, mul_x, Fe};
use rand::rngs::StdRng;
use rand::{Rng, SeedableRng};

fn to_u128(a: Fe) -> u128 {
    (a.lo as u128) | ((a.hi as u128) << 64)
}

fn from_u128(v: u128) -> Fe {
    Fe { lo: v as u64, hi: (v >> 64) as u64 }
}

/// Carry-less product of two 128-bit polynomials, as (low, high) halves.
fn clmul(a: u128, b: u128) -> (u128, u128) {
    let mut lo = 0u128;
    let mut hi = 0u128;
    for i in 0..128 {
        if (b >> i) & 1 == 1 {
            lo ^= a << i;
            if i > 0 {
                hi ^= a >> (128 - i);
            }
        }
    }
    (lo, hi)
}

/// Reduces a 256-bit polynomial modulo x^128 + x^7 + x^2 + x + 1.
fn reduce(lo: u128, hi: u128) -> u128 {
    let mut lo = lo;
    let mut hi = hi;
    for i in (0..128).rev() {
        if (hi >> i) & 1 == 1 {
            hi ^= 1u128 << i;
            lo ^= 0x87u128 << i;
            if i > 0 {
                hi ^= 0x87u128 >> (128 - i);
            }
        }
    }
    lo
}

fn reference_mul(a: Fe, b: Fe) -> Fe {
    let (lo, hi) = clmul(to_u128(a), to_u128(b));
    from_u128(reduce(lo, hi))
}

fn random_fe(rng: &mut StdRng) -> Fe {
    Fe { lo: rng.random(), hi: rng.random() }
}

#[test]
fn bit_mask_reads_top_bit_only() {
    assert_eq!(bit_mask(0x8000_0000_0000_0000), u64::MAX);
    assert_eq!(bit_mask(u64::MAX), u64::MAX);
    assert_eq!(bit_mask(0x7fff_ffff_ffff_ffff), 0);
    assert_eq!(bit_mask(1), 0);
    assert_eq!(bit_mask(0), 0);
}

#[test]
fn mul_x_exact_values() {
    assert_eq!(mul_x(Fe { lo: 1, hi: 0 }), Fe { lo: 2, hi: 0 });
    assert_eq!(mul_x(Fe { lo: 1 << 63, hi: 0 }), Fe { lo: 0, hi: 1 });
    assert_eq!(mul_x(Fe { lo: 0, hi: 1 << 63 }), Fe { lo: 0x87, hi: 0 });
    assert_eq!(mul_x(Fe { lo: 1, hi: 1 << 63 }), Fe { lo: 0x85, hi: 0 });
    assert_eq!(mul_x(Fe { lo: 0, hi: 0 }), Fe { lo: 0, hi: 0 });
}

#[test]
fn mul_x_matches_reference() {
    let mut rng = StdRng::seed_from_u64(1);
    let x = Fe { lo: 2, hi: 0 };
    for _ in 0..1000 {
        let a = random_fe(&mut rng);
        assert_eq!(mul_x(a), reference_mul(a, x));
    }
}

#[test]
fn reference_agrees_on_known_product() {
    // x^127 * x = x^128 = x^7 + x^2 + x + 1
    assert_eq!(reference_mul(Fe { lo: 0, hi: 1 << 63 }, Fe { lo: 2, hi: 0 }), Fe { lo: 0x87, hi: 0 });
}

#[test]
fn fe_xor_adds_limbwise() {
    let a = Fe { lo: 0xff00, hi: 0x1234 };
    let b = Fe { lo: 0x0ff0, hi: 0x1004 };
    assert_eq!(fe_xor(a, b), Fe { lo: 0xf0f0, hi: 0x0230 });
}

#[test]
fn cond_xor_selects_on_top_bit() {
    let acc = Fe { lo: 5, hi: 6 };
    let x = Fe { lo: 3, hi: 3 };
    assert_eq!(cond_xor(acc, x, 1 << 63), Fe { lo: 6, hi: 5 });
    assert_eq!(cond_xor(acc, x, 0), acc);
    assert_eq!(cond_xor(acc, x, 0x7fff_ffff_ffff_ffff), acc);
}

#[test]
fn lift_byte_zero_extends() {
    assert_eq!(lift_byte(0), Fe { lo: 0, hi: 0 });
    assert_eq!(lift_byte(0xff), Fe { lo: 0xff, hi: 0 });
    assert_eq!(lift_byte(0x80), Fe { lo: 0x80, hi: 0 });
}

#[test]
fn mul_byte_exact_values() {
    let a = Fe { lo: 0x1234_5678_9abc_def0, hi: 0x0fed_cba9_8765_4321 };
    assert_eq!(mul_byte(a, lift_byte(0)), Fe { lo: 0, hi: 0 });
    assert_eq!(mul_byte(a, lift_byte(1)), a);
    assert_eq!(mul_byte(a, lift_byte(2)), mul_x(a));
    assert_eq!(mul_byte(a, lift_byte(3)), fe_xor(a, mul_x(a)));
    // x^127 * (x + 1) = x^128 + x^127
    let top = Fe { lo: 0, hi: 1 << 63 };
    assert_eq!(mul_byte(top, lift_byte(3)), Fe { lo: 0x87, hi: 1 << 63 });
    // x^121 * x^7 = x^128
    let t121 = Fe { lo: 0, hi: 1 << 57 };
    assert_eq!(mul_byte(t121, lift_byte(0x80)), Fe { lo: 0x87, hi: 0 });
}

#[test]
fn mul_byte_matches_reference_for_every_byte() {
    let mut rng = StdRng::seed_from_u64(2);
    for _ in 0..20 {
        let a = random_fe(&mut rng);
        for b in 0..=255u8 {
            let x = lift_byte(b);
            assert_eq!(mul_byte(a, x), reference_mul(a, x));
        }
    }
}

#[test]
fn mul_byte_distributes_over_xor() {
    let mut rng = StdRng::seed_from_u64(3);
    for _ in 0..200 {
        let a1 = random_fe(&mut rng);
        let a2 = random_fe(&mut rng);
        let b: u8 = rng.random();
        let x = lift_byte(b);
        assert_eq!(mul_byte(fe_xor(a1, a2), x), fe_xor(mul_byte(a1, x), mul_byte(a2, x)));
    }
}

#[test]
fn mul_byte_reads_low_byte_of_operand_only() {
    let a = Fe { lo: 0xdead_beef_0000_0001, hi: 0x8000_0000_0000_0000 };
    let wide = Fe { lo: 0xffff_ff00_0000_0103, hi: 0x5 };
    assert_eq!(mul_byte(a, wide), mul_byte(a, lift_byte(0x03)));
    assert_eq!(mul_byte(a, Fe { lo: 0x100, hi: 1 }), Fe { lo: 0, hi: 0 });
    // deterministic: the same call gives the same result
    assert_eq!(mul_byte(a, wide), mul_byte(a, wide));
}
