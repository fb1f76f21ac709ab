use js_runtime::number::{at_most, from_index, index_of, is_nan, is_zero, less, same};

fn samples() -> Vec<f64> {
    vec![
        0.0,
        -0.0,
        1.0,
        -1.0,
        1.5,
        2.0,
        -2.5,
        0.1,
        1e-10,
        -1e-10,
        5e-324,
        -5e-324,
        f64::MIN_POSITIVE,
        -f64::MIN_POSITIVE,
        f64::MAX,
        f64::MIN,
        f64::INFINITY,
        f64::NEG_INFINITY,
        f64::NAN,
        f64::from_bits(0xFFF8_0000_0000_0001),
        f64::from_bits(0x7FF0_0000_0000_0001),
        24.489795918367346,
        18.5,
        24.9,
    ]
}

fn next(seed: &mut u64) -> u64 {
    *seed = seed.wrapping_mul(6364136223846793005).wrapping_add(1442695040888963407);
    *seed ^ (*seed >> 29)
}

#[test]
fn order_agrees_with_the_machine_on_chosen_values() {
    let values = samples();
    for a in values.iter() {
        for b in values.iter() {
            let (x, y) = (a.to_bits(), b.to_bits());
            assert_eq!(less(x, y), a < b, "{} < {}", a, b);
            assert_eq!(at_most(x, y), a <= b, "{} <= {}", a, b);
            assert_eq!(same(x, y), a == b, "{} == {}", a, b);
        }
    }
}

#[test]
fn order_agrees_with_the_machine_on_many_patterns() {
    let mut seed: u64 = 7;
    for _ in 0..20000 {
        let x = next(&mut seed);
        let y = next(&mut seed);
        let (a, b) = (f64::from_bits(x), f64::from_bits(y));
        assert_eq!(less(x, y), a < b);
        assert_eq!(at_most(x, y), a <= b);
        assert_eq!(same(x, y), a == b);
        assert_eq!(is_nan(x), a.is_nan());
        assert_eq!(is_zero(x), a == 0.0);
    }
}

#[test]
fn the_two_zeros_are_equal_and_neither_is_below_the_other() {
    let plus = 0.0f64.to_bits();
    let minus = (-0.0f64).to_bits();
    assert!(same(plus, minus));
    assert!(!less(minus, plus));
    assert!(!less(plus, minus));
    assert!(at_most(minus, plus));
    assert!(is_zero(minus));
}

#[test]
fn nan_compares_with_nothing() {
    let nan = f64::NAN.to_bits();
    let one = 1.0f64.to_bits();
    assert!(is_nan(nan));
    assert!(!same(nan, nan));
    assert!(!less(nan, one));
    assert!(!less(one, nan));
    assert!(!at_most(nan, nan));
    assert!(!is_nan(f64::INFINITY.to_bits()));
}

#[test]
fn an_index_becomes_the_number_that_a_cast_gives() {
    let mut chosen: Vec<u64> = vec![
        0,
        1,
        2,
        3,
        10,
        255,
        1 << 31,
        (1 << 32) + 1,
        1 << 52,
        (1 << 53) - 1,
        1 << 53,
        (1 << 53) + 1,
        (1 << 53) + 2,
        (1 << 53) + 3,
        (1 << 54) + 2,
        (1 << 54) + 6,
        (1 << 60) + 127,
        (1 << 60) + 128,
        (1 << 60) + 129,
        (1 << 60) + 384,
        1 << 63,
        u64::MAX - 1024,
        u64::MAX - 1023,
        u64::MAX,
    ];
    let mut seed: u64 = 11;
    for i in 0..20000u32 {
        chosen.push(next(&mut seed) >> (i % 64));
    }
    for n in chosen {
        if n <= usize::MAX as u64 {
            assert_eq!(from_index(n as usize), (n as f64).to_bits(), "{}", n);
        }
    }
}

#[test]
fn three_becomes_the_pattern_of_three() {
    assert_eq!(from_index(3), 0x4008_0000_0000_0000);
    assert_eq!(from_index(0), 0);
    assert_eq!(from_index(1), 0x3FF0_0000_0000_0000);
}

#[test]
fn a_number_becomes_the_index_that_a_cast_gives() {
    let mut chosen: Vec<f64> = samples();
    chosen.extend_from_slice(&[
        0.5,
        0.99,
        1.999,
        2.7,
        3.0,
        1e10,
        4503599627370496.0,
        9007199254740992.0,
        9007199254740993.0,
        9223372036854775808.0,
        1.8e19,
        18446744073709549568.0,
        18446744073709551616.0,
        1e300,
        -3.7,
    ]);
    let mut seed: u64 = 13;
    for _ in 0..20000 {
        chosen.push(f64::from_bits(next(&mut seed)));
    }
    for _ in 0..20000 {
        let bits = (next(&mut seed) % (1u64 << 63)) % 0x4400_0000_0000_0000;
        chosen.push(f64::from_bits(bits));
    }
    for x in chosen {
        assert_eq!(index_of(x.to_bits()), x as usize, "{}", x);
    }
}

#[test]
fn two_and_seven_tenths_stands_for_index_two() {
    assert_eq!(index_of(2.7f64.to_bits()), 2);
    assert_eq!(index_of((-2.7f64).to_bits()), 0);
    assert_eq!(index_of(f64::NAN.to_bits()), 0);
    assert_eq!(index_of(f64::INFINITY.to_bits()), usize::MAX);
}

#[test]
fn an_index_survives_the_way_through_a_number() {
    for n in [0usize, 1, 2, 3, 1000, 65535, 4294967295] {
        assert_eq!(index_of(from_index(n)), n);
    }
}
