use palette_evolve::{
    ProblemDescription,
    fx_multiply, fx_power, Color, ColorScheme, ColorSchemeProblemDescription, FitnessData, Parameter, Stat,
    StatValues, Strength, Target, TargetDirection, UNDEFINED_FITNESS,
};

fn chroma_data(mean: i64) -> FitnessData {
    FitnessData {
        chroma: Some(StatValues { mean, stddev: mean, min: mean, max: mean }),
        luminance: None,
        fixed_distance: None,
        free_distance: None,
    }
}

fn t(direction: TargetDirection) -> Target {
    Target::new(direction, Stat::Mean, Parameter::Chroma, Strength { factor: 3000, exponent: 2 })
}

#[test]
fn target_calculate() {
    let data = chroma_data(4000);
    assert_eq!(t(TargetDirection::Maximize).calculate(&data), Some(144000));
    assert_eq!(t(TargetDirection::Minimize).calculate(&data), Some(-144000));
    assert_eq!(t(TargetDirection::Approximate(6000)).calculate(&data), Some(-36000));
}

#[test]
fn target_on_empty_sample_is_undefined() {
    let data = chroma_data(4000);
    let target = Target::new(
        TargetDirection::Maximize,
        Stat::Mean,
        Parameter::FreeDistance,
        Strength { factor: 1000, exponent: 1 },
    );
    assert_eq!(target.value(&data), None);
    assert_eq!(target.calculate(&data), None);
}

#[test]
fn target_value_reads_the_statistic() {
    let data = FitnessData {
        chroma: None,
        luminance: Some(StatValues { mean: 1, stddev: 2, min: 3, max: 4 }),
        fixed_distance: None,
        free_distance: None,
    };
    let mk = |stat| Target::new(TargetDirection::Maximize, stat, Parameter::Luminance, Strength { factor: 1000, exponent: 1 });
    assert_eq!(mk(Stat::Mean).value(&data), Some(1));
    assert_eq!(mk(Stat::StdDev).value(&data), Some(2));
    assert_eq!(mk(Stat::Min).value(&data), Some(3));
    assert_eq!(mk(Stat::Max).value(&data), Some(4));
}

#[test]
fn strength_with_odd_exponent_and_negative_factor() {
    let s = Strength { factor: -2000, exponent: 3 };
    // (-2 * 1.5)^3 = -27
    assert_eq!(s.calculate(1500), -27000);
}

#[test]
fn strength_with_negative_exponent_is_a_reciprocal() {
    let s = Strength { factor: 1000, exponent: -1 };
    assert_eq!(s.calculate(2000), 500);
    assert_eq!(s.calculate(0), i64::MAX);
    let s = Strength { factor: 1000, exponent: -2 };
    assert_eq!(s.calculate(-4000), 62);
}

#[test]
fn strength_with_zero_exponent_is_one() {
    let s = Strength { factor: 5000, exponent: 0 };
    assert_eq!(s.calculate(123456), 1000);
}

#[test]
fn fixed_point_arithmetic() {
    assert_eq!(fx_multiply(1500, 2000), 3000);
    assert_eq!(fx_multiply(-1500, 1001), -1501);
    assert_eq!(fx_multiply(i64::MAX, 2000), i64::MAX);
    assert_eq!(fx_multiply(i64::MIN, 2000), i64::MIN);
    assert_eq!(fx_power(2000, 10), 1024000);
    assert_eq!(fx_power(-1000, 3), -1000);
}

#[test]
fn approximate_saturates_huge_differences() {
    let data = chroma_data(i64::MIN);
    let target = Target::new(
        TargetDirection::Approximate(i64::MAX),
        Stat::Mean,
        Parameter::Chroma,
        Strength { factor: 1000, exponent: 1 },
    );
    assert_eq!(target.calculate(&data), Some(-i64::MAX));
}

#[test]
fn set_replaces_target_with_same_key() {
    let mut descr = ColorSchemeProblemDescription::new(3, vec![]);
    descr.set(t(TargetDirection::Maximize));
    descr.set(Target::new(TargetDirection::Minimize, Stat::Max, Parameter::Chroma, Strength { factor: 1000, exponent: 1 }));
    descr.set(t(TargetDirection::Minimize));
    assert_eq!(descr.fitness_targets.len(), 2);
    assert_eq!(descr.fitness_targets[0].direction, TargetDirection::Minimize);
    assert_eq!(descr.fitness_targets[1].stat, Stat::Max);
}

#[test]
fn fitness_is_sum_of_targets() {
    let mut descr = ColorSchemeProblemDescription::new(1, vec![]);
    descr.set(t(TargetDirection::Maximize));
    descr.set(Target::new(TargetDirection::Minimize, Stat::Max, Parameter::Chroma, Strength { factor: 1000, exponent: 1 }));
    assert_eq!(descr.calculate_fitness(&chroma_data(4000)), 144000 - 4000);
}

#[test]
fn fitness_without_targets_is_zero() {
    let descr = ColorSchemeProblemDescription::new(1, vec![]);
    assert_eq!(descr.calculate_fitness(&chroma_data(4000)), 0);
}

#[test]
fn fitness_reading_empty_sample_is_undefined() {
    let mut descr = ColorSchemeProblemDescription::new(1, vec![]);
    descr.set(t(TargetDirection::Maximize));
    descr.set(Target::new(TargetDirection::Maximize, Stat::Mean, Parameter::FreeDistance, Strength { factor: 1000, exponent: 1 }));
    assert_eq!(descr.calculate_fitness(&chroma_data(4000)), UNDEFINED_FITNESS);
}

#[test]
fn fitness_data_of_one_free_color() {
    let scheme = ColorScheme::new(vec![Color { l: 50000, a: 3000, b: -4000 }]);
    let descr = ColorSchemeProblemDescription::new(1, vec![Color { l: 0, a: 0, b: 0 }, Color { l: 100000, a: 0, b: 0 }]);
    let fixed = vec![vec![7000], vec![9000]];
    let free = vec![vec![0]];
    let data = scheme.fitness_data(&descr, &fixed, &free);
    assert_eq!(data.chroma, Some(StatValues { mean: 5000, stddev: 0, min: 5000, max: 5000 }));
    assert_eq!(data.luminance, Some(StatValues { mean: 50000, stddev: 0, min: 50000, max: 50000 }));
    assert_eq!(data.fixed_distance, Some(StatValues { mean: 8000, stddev: 1000, min: 7000, max: 9000 }));
    assert_eq!(data.free_distance, None);
}

#[test]
fn fitness_data_counts_each_free_pair_once() {
    let scheme = ColorScheme::new(vec![
        Color { l: 10000, a: 0, b: 0 },
        Color { l: 20000, a: 0, b: 0 },
        Color { l: 30000, a: 0, b: 0 },
    ]);
    let descr = ColorSchemeProblemDescription::new(3, vec![]);
    let free = vec![vec![0, 1000, 2000], vec![1000, 0, 3000], vec![2000, 3000, 0]];
    let data = scheme.fitness_data(&descr, &vec![], &free);
    assert_eq!(data.fixed_distance, None);
    let d = data.free_distance.unwrap();
    assert_eq!((d.mean, d.min, d.max), (2000, 1000, 3000));
    // population variance of 1, 2, 3 is 2/3: its root is 0.816 in thousandths
    assert_eq!(d.stddev, 816);
    let l = data.luminance.unwrap();
    assert_eq!((l.mean, l.min, l.max, l.stddev), (20000, 10000, 30000, 8164));
}
