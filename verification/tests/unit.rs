use rscsg::unit::{EPSILON_BITS, HALF_BITS, HALF_TURN_BITS, ONE_BITS, PI_BITS, TWO_BITS};
use rscsg::Unit;

fn u(x: f32) -> Unit {
    Unit::from_bits(x.to_bits())
}

fn f(x: Unit) -> f32 {
    f32::from_bits(x.to_bits())
}

/// A fixed sequence of bit patterns that visits every class of number.
fn patterns(count: usize) -> Vec<u32> {
    let mut out = vec![
        0x0000_0000,
        0x8000_0000,
        0x0000_0001,
        0x8000_0001,
        0x007f_ffff,
        0x0080_0000,
        0x3f80_0000,
        0xbf80_0000,
        0x7f7f_ffff,
        0xff7f_ffff,
        0x7f80_0000,
        0xff80_0000,
        0x7fc0_0000,
        0xffc0_0001,
        0x7f80_0001,
        0x3727_c5ac,
        0x4049_0fdb,
    ];
    let mut state: u64 = 0x9e37_79b9_7f4a_7c15;
    while out.len() < count {
        state = state
            .wrapping_mul(6364136223846793005)
            .wrapping_add(1442695040888963407);
        out.push((state >> 32) as u32);
    }
    out
}

fn agree(soft: Unit, native: f32) -> bool {
    if native.is_nan() {
        f(soft).is_nan()
    } else {
        soft.to_bits() == native.to_bits()
    }
}

#[test]
fn constants_have_their_values() {
    assert_eq!(f(Unit::zero()), 0.0);
    assert_eq!(Unit::zero().to_bits(), 0);
    assert_eq!(f(Unit::one()), 1.0);
    assert_eq!(f(Unit::half()), 0.5);
    assert_eq!(f(Unit::two()), 2.0);
    assert_eq!(f(Unit::half_turn()), 180.0);
    assert_eq!(f(Unit::pi()), std::f32::consts::PI);
    assert_eq!(f(Unit::epsilon()), 1e-5);
    assert_eq!(ONE_BITS, 1.0f32.to_bits());
    assert_eq!(HALF_BITS, 0.5f32.to_bits());
    assert_eq!(TWO_BITS, 2.0f32.to_bits());
    assert_eq!(HALF_TURN_BITS, 180.0f32.to_bits());
    assert_eq!(PI_BITS, std::f32::consts::PI.to_bits());
    assert_eq!(EPSILON_BITS, 1e-5f32.to_bits());
}

#[test]
fn arithmetic_on_small_numbers() {
    assert_eq!(f(u(1.5).add(u(2.25))), 3.75);
    assert_eq!(f(u(1.5).sub(u(2.25))), -0.75);
    assert_eq!(f(u(1.5).mul(u(2.25))), 3.375);
    assert_eq!(f(u(1.5).div(u(0.25))), 6.0);
    assert_eq!(f(u(6.25).sqrt()), 2.5);
    assert_eq!(f(u(0.1).add(u(0.2))), 0.1f32 + 0.2f32);
    assert_eq!(f(u(1.0).div(u(3.0))), 1.0f32 / 3.0f32);
    assert_eq!(f(u(2.0).sqrt()), 2.0f32.sqrt());
    assert_eq!(f(u(1.5) + u(2.25)), 3.75);
    assert_eq!(f(u(1.5) - u(2.25)), -0.75);
    assert_eq!(f(u(1.5) * u(2.25)), 3.375);
    assert_eq!(f(u(1.5) / u(0.25)), 6.0);
    assert_eq!(f(-u(1.5)), -1.5);
}

#[test]
fn division_by_zero_does_not_fail() {
    assert_eq!(f(u(1.0).div(u(0.0))), f32::INFINITY);
    assert_eq!(f(u(-1.0).div(u(0.0))), f32::NEG_INFINITY);
    assert!(f(u(0.0).div(u(0.0))).is_nan());
    assert!(f(u(-4.0).sqrt()).is_nan());
    assert!(u(0.0).div(u(0.0)).is_nan());
    assert!(!u(1.0).div(u(0.0)).is_nan());
}

#[test]
fn addition_agrees_with_the_machine() {
    let p = patterns(60_000);
    for w in p.windows(2) {
        let (a, b) = (w[0], w[1]);
        let soft = Unit::from_bits(a).add(Unit::from_bits(b));
        assert!(
            agree(soft, f32::from_bits(a) + f32::from_bits(b)),
            "{:#x} + {:#x}",
            a,
            b
        );
    }
}

#[test]
fn subtraction_agrees_with_the_machine() {
    let p = patterns(60_000);
    for w in p.windows(2) {
        let (a, b) = (w[0], w[1]);
        let soft = Unit::from_bits(a).sub(Unit::from_bits(b));
        assert!(
            agree(soft, f32::from_bits(a) - f32::from_bits(b)),
            "{:#x} - {:#x}",
            a,
            b
        );
    }
}

#[test]
fn multiplication_agrees_with_the_machine() {
    let p = patterns(60_000);
    for w in p.windows(2) {
        let (a, b) = (w[0], w[1]);
        let soft = Unit::from_bits(a).mul(Unit::from_bits(b));
        let native = f32::from_bits(a) * f32::from_bits(b);
        if native.abs() < f32::MIN_POSITIVE {
            // below the normal range the last place may differ
            let d = soft.to_bits() as i64 - native.to_bits() as i64;
            assert!(d.abs() <= 1, "{:#x} * {:#x}", a, b);
        } else {
            assert!(agree(soft, native), "{:#x} * {:#x}", a, b);
        }
    }
}

#[test]
fn division_agrees_with_the_machine() {
    let p = patterns(60_000);
    for w in p.windows(2) {
        let (a, b) = (w[0], w[1]);
        let soft = Unit::from_bits(a).div(Unit::from_bits(b));
        assert!(
            agree(soft, f32::from_bits(a) / f32::from_bits(b)),
            "{:#x} / {:#x}",
            a,
            b
        );
    }
}

#[test]
fn square_root_agrees_with_the_machine() {
    for a in patterns(60_000) {
        let soft = Unit::from_bits(a).sqrt();
        assert!(agree(soft, f32::from_bits(a).sqrt()), "sqrt {:#x}", a);
    }
}

#[test]
fn arithmetic_near_one_agrees_with_the_machine() {
    // operands of like size, where sums cancel and quotients are near one
    let mut state: u32 = 12345;
    for _ in 0..60_000 {
        state = state.wrapping_mul(1664525).wrapping_add(1013904223);
        let a = 0x3f00_0000 + (state >> 8);
        state = state.wrapping_mul(1664525).wrapping_add(1013904223);
        let b = (0x3f00_0000 + (state >> 8)) | (state << 31);
        let (x, y) = (f32::from_bits(a), f32::from_bits(b));
        let (p, q) = (Unit::from_bits(a), Unit::from_bits(b));
        assert_eq!(p.add(q).to_bits(), (x + y).to_bits());
        assert_eq!(p.sub(q).to_bits(), (x - y).to_bits());
        assert_eq!(p.mul(q).to_bits(), (x * y).to_bits());
        assert_eq!(p.div(q).to_bits(), (x / y).to_bits());
    }
}

#[test]
fn sine_and_cosine_are_close_to_the_machine() {
    let mut k = -2000;
    while k <= 2000 {
        let x = k as f32 * 0.01;
        let s = f(u(x).sin());
        let c = f(u(x).cos());
        assert!((s - x.sin()).abs() <= 1e-6, "sin {}", x);
        assert!((c - x.cos()).abs() <= 1e-6, "cos {}", x);
        k += 1;
    }
    assert_eq!(f(u(0.0).sin()), 0.0);
    assert_eq!(f(u(0.0).cos()), 1.0);
    assert!(f(u(f32::INFINITY).sin()).is_nan());
    assert!(f(u(f32::NAN).cos()).is_nan());
    assert!(f(u(1.0e30).sin()).abs() <= 1.0);
    assert!(f(u(1.0e30).cos()).abs() <= 1.0);
}

#[test]
fn sine_and_cosine_of_any_pattern() {
    for a in patterns(40_000) {
        let x = f32::from_bits(a);
        let s = f(Unit::from_bits(a).sin());
        let c = f(Unit::from_bits(a).cos());
        if x.is_finite() {
            assert!((s - x.sin()).abs() <= 1e-6, "sin {:#x}", a);
            assert!((c - x.cos()).abs() <= 1e-6, "cos {:#x}", a);
        } else {
            assert!(s.is_nan(), "sin {:#x}", a);
            assert!(c.is_nan(), "cos {:#x}", a);
        }
    }
}

#[test]
fn counts_become_the_nearest_number() {
    for n in [0u32, 1, 2, 3, 7, 180, 1000, 16_777_215, 16_777_216, 16_777_217,
        16_777_219, 33_554_431, 4_000_000_000, u32::MAX]
    {
        assert_eq!(Unit::from_count(n).to_bits(), (n as f32).to_bits(), "{}", n);
    }
    let mut state: u32 = 99;
    for _ in 0..20_000 {
        state = state.wrapping_mul(1664525).wrapping_add(1013904223);
        assert_eq!(Unit::from_count(state).to_bits(), (state as f32).to_bits());
    }
}

#[test]
fn negation_flips_the_sign_bit() {
    for a in patterns(20_000) {
        let n = Unit::from_bits(a).neg();
        assert_eq!(n.to_bits(), a ^ 0x8000_0000);
        assert_eq!(n.to_bits(), (-f32::from_bits(a)).to_bits());
        assert_eq!(n.neg().to_bits(), a);
    }
}

#[test]
fn order_agrees_with_the_machine() {
    let p = patterns(40_000);
    for w in p.windows(2) {
        let (a, b) = (w[0], w[1]);
        let (x, y) = (f32::from_bits(a), f32::from_bits(b));
        let (s, t) = (Unit::from_bits(a), Unit::from_bits(b));
        assert_eq!(s.lt(t), x < y, "{:#x} < {:#x}", a, b);
        assert_eq!(s.gt(t), x > y, "{:#x} > {:#x}", a, b);
        assert_eq!(s.same(t), x == y, "{:#x} == {:#x}", a, b);
        assert_eq!(s.is_nan(), x.is_nan());
    }
    // every pair of the special patterns
    let special = patterns(17);
    for &a in &special {
        for &b in &special {
            let (x, y) = (f32::from_bits(a), f32::from_bits(b));
            let (s, t) = (Unit::from_bits(a), Unit::from_bits(b));
            assert_eq!(s.lt(t), x < y, "{:#x} < {:#x}", a, b);
            assert_eq!(s.gt(t), x > y, "{:#x} > {:#x}", a, b);
            assert_eq!(s.same(t), x == y, "{:#x} == {:#x}", a, b);
        }
    }
}

#[test]
fn the_two_zeros_are_the_same_number() {
    assert!(u(0.0).same(u(-0.0)));
    assert!(!u(0.0).lt(u(-0.0)));
    assert!(!u(0.0).gt(u(-0.0)));
    assert!(!u(f32::NAN).same(u(f32::NAN)));
    assert!(u(-1.0).lt(u(0.0)));
    assert!(u(-2.0).lt(u(-1.0)));
    assert!(u(3.0).gt(u(-4.0)));
}
