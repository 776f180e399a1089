use fastrand::rng::FALLBACK_SEED;
use fastrand::thread_local::{
    alphabetic, alphanumeric, bool, digit, f32_bits, f64_bits, i128, i16, i32, i64, i8, isize,
    local_seed, lowercase, seed, shuffle, u128, u16, u32, u64, u8, uppercase, usize, Bound,
};
use fastrand::Rng;

fn draw_all(rng: &mut Rng) -> Vec<u64> {
    let mut out = Vec::new();
    out.push(u64(rng, Bound::Unbounded, Bound::Unbounded));
    out.push(u8(rng, Bound::Included(3), Bound::Excluded(200)) as u64);
    out.push(i32(rng, Bound::Included(-7), Bound::Included(7)) as u64);
    out.push(bool(rng) as u64);
    out.push(alphabetic(rng) as u64);
    out.push(digit(rng, 16) as u64);
    out.push(f64_bits(rng));
    out
}

#[test]
fn first_output_from_seed_zero() {
    let mut rng = Rng::with_seed(0);
    assert_eq!(rng.gen_u64(), 1233057930238600590);
    assert_eq!(rng.get_seed(), 0xa0761d6478bd642f);
    assert_eq!(rng.gen_u64(), 14892235431655409005);
}

#[test]
fn first_output_from_seed_forty_two() {
    let mut rng = Rng::with_seed(0);
    seed(&mut rng, 42);
    assert_eq!(rng.get_seed(), 42);
    assert_eq!(u64(&mut rng, Bound::Unbounded, Bound::Unbounded), 12558987674375533620);
}

#[test]
fn seeding_is_deterministic() {
    let mut a = Rng::with_seed(1);
    let mut b = Rng::with_seed(999);
    a.gen_u64();
    seed(&mut a, 0xdead_beef);
    seed(&mut b, 0xdead_beef);
    for _ in 0..100 {
        assert_eq!(draw_all(&mut a), draw_all(&mut b));
    }
    assert_eq!(a.get_seed(), b.get_seed());
}

#[test]
fn separate_generators_do_not_interfere() {
    let mut a = Rng::with_seed(7);
    let mut b = Rng::with_seed(7);
    let mut other = Rng::with_seed(8);
    let first: Vec<Vec<u64>> = (0..10).map(|_| draw_all(&mut a)).collect();
    for _ in 0..10 {
        draw_all(&mut other);
    }
    let second: Vec<Vec<u64>> = (0..10).map(|_| draw_all(&mut b)).collect();
    assert_eq!(first, second);
    assert_ne!(draw_all(&mut other), draw_all(&mut Rng::with_seed(8)));
}

#[test]
fn ranges_hold_their_samples() {
    let mut rng = Rng::with_seed(3);
    for _ in 0..10_000 {
        let x = u8(&mut rng, Bound::Included(10), Bound::Excluded(20));
        assert!((10..20).contains(&x));
        let x = i8(&mut rng, Bound::Excluded(-5), Bound::Included(5));
        assert!((-4..=5).contains(&x));
        let x = u16(&mut rng, Bound::Unbounded, Bound::Excluded(3));
        assert!(x < 3);
        let x = i16(&mut rng, Bound::Included(-300), Bound::Unbounded);
        assert!(x >= -300);
        let x = u32(&mut rng, Bound::Included(5), Bound::Included(5));
        assert_eq!(x, 5);
        let x = i64(&mut rng, Bound::Included(i64::MIN), Bound::Excluded(i64::MIN + 2));
        assert!(x == i64::MIN || x == i64::MIN + 1);
        let x = u64(&mut rng, Bound::Excluded(u64::MAX - 2), Bound::Unbounded);
        assert!(x > u64::MAX - 2);
        let x = usize(&mut rng, Bound::Included(100), Bound::Excluded(1000));
        assert!((100..1000).contains(&x));
        let x = isize(&mut rng, Bound::Included(-1), Bound::Included(1));
        assert!((-1..=1).contains(&x));
    }
}

#[test]
fn full_signed_range_reaches_both_signs() {
    let mut rng = Rng::with_seed(11);
    let mut neg = false;
    let mut pos = false;
    for _ in 0..1000 {
        let x = i64(&mut rng, Bound::Unbounded, Bound::Unbounded);
        neg |= x < 0;
        pos |= x > 0;
    }
    assert!(neg && pos);
}

#[test]
fn small_range_is_close_to_uniform() {
    let mut rng = Rng::with_seed(12345);
    let n = 40_000;
    let mut counts = [0u32; 4];
    for _ in 0..n {
        counts[u32(&mut rng, Bound::Included(0), Bound::Excluded(4)) as usize] += 1;
    }
    let expected = n as f64 / 4.0;
    let chi: f64 = counts
        .iter()
        .map(|&c| {
            let d = c as f64 - expected;
            d * d / expected
        })
        .sum();
    // three degrees of freedom: 16.27 is the 0.1% critical value
    assert!(chi < 16.27, "chi-square {chi} on {counts:?}");
}

#[test]
fn hex_digits_only() {
    let mut rng = Rng::with_seed(5);
    let mut seen = std::collections::HashSet::new();
    for _ in 0..10_000 {
        let c = digit(&mut rng, 16);
        assert!("0123456789abcdef".contains(c));
        seen.insert(c);
    }
    assert_eq!(seen.len(), 16);
}

#[test]
fn base_one_and_base_thirty_six() {
    let mut rng = Rng::with_seed(6);
    let mut seen = std::collections::HashSet::new();
    for _ in 0..10_000 {
        assert_eq!(digit(&mut rng, 1), '0');
        let c = digit(&mut rng, 36);
        assert!(c.is_ascii_digit() || c.is_ascii_lowercase());
        seen.insert(c);
    }
    assert_eq!(seen.len(), 36);
}

#[test]
fn alphabetic_yields_both_cases() {
    let mut rng = Rng::with_seed(8);
    let mut lower = false;
    let mut upper = false;
    for _ in 0..10_000 {
        let c = alphabetic(&mut rng);
        assert!(c.is_ascii_alphabetic());
        lower |= c.is_ascii_lowercase();
        upper |= c.is_ascii_uppercase();
    }
    assert!(lower && upper);
}

#[test]
fn character_classes() {
    let mut rng = Rng::with_seed(9);
    let mut seen = std::collections::HashSet::new();
    for _ in 0..10_000 {
        let c = alphanumeric(&mut rng);
        assert!(c.is_ascii_alphanumeric());
        seen.insert(c);
        assert!(lowercase(&mut rng).is_ascii_lowercase());
        assert!(uppercase(&mut rng).is_ascii_uppercase());
    }
    assert_eq!(seen.len(), 62);
}

#[test]
fn bool_takes_both_values() {
    let mut rng = Rng::with_seed(10);
    let trues = (0..1000).filter(|_| bool(&mut rng)).count();
    assert!(trues > 400 && trues < 600);
}

#[test]
fn shuffle_reaches_every_order() {
    let mut counts = std::collections::HashMap::new();
    let runs = 120_000u64;
    for s in 0..runs {
        let mut rng = Rng::with_seed(s);
        let mut v = [1, 2, 3, 4, 5];
        shuffle(&mut rng, &mut v);
        let mut sorted = v;
        sorted.sort();
        assert_eq!(sorted, [1, 2, 3, 4, 5]);
        *counts.entry(v).or_insert(0u64) += 1;
    }
    assert_eq!(counts.len(), 120);
    for (_, c) in counts {
        assert!(c > 800 && c < 1200, "count {c}");
    }
}

#[test]
fn shuffle_of_short_slices_is_a_no_op() {
    let mut rng = Rng::with_seed(13);
    let mut empty: [u8; 0] = [];
    shuffle(&mut rng, &mut empty);
    assert_eq!(rng.get_seed(), 13);
    let mut one = [42];
    shuffle(&mut rng, &mut one);
    assert_eq!(one, [42]);
    assert_eq!(rng.get_seed(), 13);
}

#[test]
fn floats_stay_below_one() {
    let mut rng = Rng::with_seed(14);
    for _ in 0..10_000 {
        let x = f32::from_bits(f32_bits(&mut rng)) - 1.0;
        assert!((0.0..1.0).contains(&x));
        let y = f64::from_bits(f64_bits(&mut rng)) - 1.0;
        assert!((0.0..1.0).contains(&y));
    }
}

#[test]
fn float_bits_of_extreme_outputs() {
    // the largest output gives the largest mantissa, which is still below 2.0
    let x = f32::from_bits(0x3F80_0000 + (u64::MAX >> 41) as u32);
    assert!(x < 2.0);
    let y = f64::from_bits(0x3FF0_0000_0000_0000 + (u64::MAX >> 12));
    assert!(y < 2.0);
}

#[test]
fn local_seed_is_odd() {
    assert_eq!(local_seed(0), 1);
    assert_eq!(local_seed(5), 11);
    assert_eq!(local_seed(u64::MAX), u64::MAX);
    assert_eq!(local_seed(1 << 63), 1);
}

#[test]
fn new_without_a_source_uses_the_fallback() {
    assert_eq!(Rng::new(None).get_seed(), FALLBACK_SEED);
    assert_eq!(Rng::new(Some(77)).get_seed(), 77);
}

#[test]
fn successive_new_generators_differ() {
    let mut local = Rng::with_seed(local_seed(0x1234));
    let mut a = Rng::new(Some(local.gen_u64()));
    let mut b = Rng::new(Some(local.gen_u64()));
    assert_ne!(a.get_seed(), b.get_seed());
    assert_ne!(draw_all(&mut a), draw_all(&mut b));
}

#[test]
fn new_takes_the_drawn_output() {
    let mut local = Rng::with_seed(0);
    let created = Rng::new(Some(local.gen_u64()));
    assert_eq!(created.get_seed(), 1233057930238600590);
    assert_eq!(local.get_seed(), 0xa0761d6478bd642f);
}

#[test]
fn wide_values_from_seed_zero() {
    let mut rng = Rng::with_seed(0);
    assert_eq!(
        u128(&mut rng, Bound::Unbounded, Bound::Unbounded),
        22745904067169471171311452815868462445
    );
    let mut rng = Rng::with_seed(0);
    assert_eq!(u128(&mut rng, Bound::Included(0), Bound::Excluded(10)), 5);
    let mut rng = Rng::with_seed(0);
    assert_eq!(i128(&mut rng, Bound::Included(-5), Bound::Included(4)), 0);
}

#[test]
fn wide_ranges_hold_their_samples() {
    let mut rng = Rng::with_seed(15);
    let mut neg = false;
    let mut pos = false;
    for _ in 0..10_000 {
        let x = u128(&mut rng, Bound::Excluded(u128::MAX - 3), Bound::Unbounded);
        assert!(x > u128::MAX - 3);
        let x = i128(&mut rng, Bound::Included(i128::MIN), Bound::Excluded(i128::MIN + 3));
        assert!(x < i128::MIN + 3);
        let x = i128(&mut rng, Bound::Unbounded, Bound::Unbounded);
        neg |= x < 0;
        pos |= x > 0;
        let x = i128(&mut rng, Bound::Included(-1), Bound::Included(1));
        assert!((-1..=1).contains(&x));
    }
    assert!(neg && pos);
}
