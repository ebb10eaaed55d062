use palette_evolve::{isqrt, StatValues};

#[test]
fn empty_sample_has_no_statistics() {
    assert_eq!(StatValues::from(&vec![]), None);
}

#[test]
fn single_value_sample() {
    assert_eq!(StatValues::from(&vec![-7]), Some(StatValues { mean: -7, stddev: 0, min: -7, max: -7 }));
}

#[test]
fn two_value_sample() {
    assert_eq!(StatValues::from(&vec![1000, 3000]), Some(StatValues { mean: 2000, stddev: 1000, min: 1000, max: 3000 }));
}

#[test]
fn mean_rounds_down() {
    assert_eq!(StatValues::from(&vec![-1, 0]).unwrap().mean, -1);
    assert_eq!(StatValues::from(&vec![1, 2]).unwrap().mean, 1);
}

#[test]
fn extreme_values_do_not_overflow() {
    let s = StatValues::from(&vec![i32::MIN, i32::MAX, i32::MIN, i32::MAX]).unwrap();
    assert_eq!(s.min, i32::MIN as i64);
    assert_eq!(s.max, i32::MAX as i64);
    assert_eq!(s.mean, -1);
    assert_eq!(s.stddev, 2147483647);
}

#[test]
fn integer_square_root() {
    assert_eq!(isqrt(0), 0);
    assert_eq!(isqrt(15), 3);
    assert_eq!(isqrt(16), 4);
    assert_eq!(isqrt(0x4000_0000_0000_0000), 0x8000_0000);
}
