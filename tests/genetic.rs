use palette_evolve::{
    Genotype, ProblemDescription,
    rank_order, tournament_selection, tournament_winner, Color, ColorScheme, ColorSchemeProblemDescription,
    Parameter, Population, Shift, Stat, Strength, Target, TargetDirection,
};
use rand::rngs::StdRng;
use rand::{Rng, SeedableRng};

#[test]
fn tournament_winner_is_fittest_first_seen() {
    let fitness = vec![5, 9, 9, 1];
    assert_eq!(tournament_winner(&fitness, &vec![0, 2, 1, 3]), 2);
    assert_eq!(tournament_winner(&fitness, &vec![3]), 3);
    assert_eq!(tournament_winner(&fitness, &vec![3, 0, 3]), 0);
}

#[test]
fn tournament_selection_stays_in_range() {
    let mut rng = StdRng::seed_from_u64(7);
    let fitness = vec![3, 1, 2];
    for _ in 0..200 {
        assert!(tournament_selection(&fitness, 4, &mut rng) < 3);
    }
}

#[test]
fn tournament_of_one_is_uniform() {
    let mut rng = StdRng::seed_from_u64(11);
    let fitness = vec![100, -5, 0, 7, 7];
    let mut counts = [0usize; 5];
    let trials = 50_000;
    for _ in 0..trials {
        counts[tournament_selection(&fitness, 1, &mut rng)] += 1;
    }
    let expected = trials as f64 / 5.0;
    let chi2: f64 = counts.iter().map(|&k| (k as f64 - expected).powi(2) / expected).sum();
    // 4 degrees of freedom: 18.47 is the 0.999 quantile
    assert!(chi2 < 18.47, "counts {:?}", counts);
}

#[test]
fn tournament_of_four_favours_the_fittest() {
    let mut rng = StdRng::seed_from_u64(3);
    let fitness = vec![0, 1, 2, 3];
    let mut best = 0;
    for _ in 0..4000 {
        if tournament_selection(&fitness, 4, &mut rng) == 3 {
            best += 1;
        }
    }
    // 1 - (3/4)^4 = 0.68
    assert!(best > 2500 && best < 2950, "{}", best);
}

#[test]
fn ranking_is_descending_and_stable() {
    assert_eq!(rank_order(&vec![1, 5, 3, 5, 1]), vec![1, 3, 2, 0, 4]);
    assert_eq!(rank_order(&vec![]), Vec::<usize>::new());
}

fn scheme(seed: i32) -> ColorScheme {
    ColorScheme::new(vec![
        Color { l: 10000 + seed * 1000, a: seed * 500, b: -seed * 300 },
        Color { l: 60000 - seed * 1000, a: -seed * 400, b: seed * 200 },
    ])
}

fn luminance_problem() -> ColorSchemeProblemDescription {
    let mut descr = ColorSchemeProblemDescription::new(2, vec![Color { l: 0, a: 0, b: 0 }]);
    descr.set(Target::new(TargetDirection::Maximize, Stat::Mean, Parameter::Luminance, Strength { factor: 1000, exponent: 1 }));
    descr.set(Target::new(TargetDirection::Maximize, Stat::Min, Parameter::FreeDistance, Strength { factor: 1000, exponent: 1 }));
    descr
}

fn dist(x: &Color, y: &Color) -> i32 {
    let d = ((x.l - y.l) as f64).powi(2) + ((x.a - y.a) as f64).powi(2) + ((x.b - y.b) as f64).powi(2);
    d.sqrt() as i32
}

fn fitness_of(p: &Population<ColorScheme, ColorSchemeProblemDescription>) -> Vec<i64> {
    let descr = &p.problem_description;
    p.genotypes
        .iter()
        .map(|g| {
            let fixed: Vec<Vec<i32>> =
                descr.fixed_colors.iter().map(|f| g.free_colors.iter().map(|c| dist(f, c)).collect()).collect();
            let free: Vec<Vec<i32>> =
                g.free_colors.iter().map(|x| g.free_colors.iter().map(|y| dist(x, y)).collect()).collect();
            descr.calculate_fitness(&g.fitness_data(descr, &fixed, &free))
        })
        .collect()
}

fn noise_for(p: &Population<ColorScheme, ColorSchemeProblemDescription>, rng: &mut StdRng) -> Vec<Vec<Shift>> {
    let children = p.genotypes.len() - p.elitism;
    (0..children)
        .map(|_| {
            (0..p.problem_description.free_color_count)
                .map(|_| Shift { l: rng.gen_range(-2000..=2000), a: rng.gen_range(-2560..=2560), b: rng.gen_range(-2560..=2560) })
                .collect()
        })
        .collect()
}

#[test]
fn elites_survive_unchanged() {
    let mut p = Population::new((0..6).map(scheme).collect(), luminance_problem());
    p.elitism = 2;
    let fitness = fitness_of(&p);
    let old: Vec<ColorScheme> = p.genotypes.iter().map(|g| g.duplicate()).collect();
    let order = rank_order(&fitness);
    let mut rng = StdRng::seed_from_u64(1);
    let noise = noise_for(&p, &mut rng);
    let best = p.next_generation(&fitness, &noise, &mut rng);
    assert_eq!(p.genotypes.len(), 6);
    assert_eq!(best.free_colors, old[order[0]].free_colors);
    assert_eq!(best.get_fitness(), fitness[order[0]]);
    for i in 0..2 {
        assert_eq!(p.genotypes[i].free_colors, old[order[i]].free_colors);
        assert_eq!(p.genotypes[i].get_fitness(), fitness[order[i]]);
    }
    for i in 2..6 {
        assert_eq!(p.genotypes[i].free_colors.len(), 2);
        assert_eq!(p.genotypes[i].get_fitness(), 0);
    }
}

#[test]
fn children_without_mutation_are_crossovers() {
    let mut p = Population::new((0..4).map(scheme).collect(), luminance_problem());
    p.mutation_index = 0;
    p.elitism = 0;
    let fitness = fitness_of(&p);
    let mut rng = StdRng::seed_from_u64(5);
    let noise = noise_for(&p, &mut rng);
    let old: Vec<ColorScheme> = p.genotypes.iter().map(|g| g.duplicate()).collect();
    p.next_generation(&fitness, &noise, &mut rng);
    for child in p.genotypes.iter() {
        let found = old.iter().any(|a| old.iter().any(|b| a.crossover(b).free_colors == child.free_colors));
        assert!(found);
    }
}

fn run(seed: u64, generations: usize) -> (Vec<Color>, Vec<i64>) {
    let mut rng = StdRng::seed_from_u64(seed);
    let mut p = Population::new((0..8).map(scheme).collect(), luminance_problem());
    let mut trace = Vec::new();
    let mut best = None;
    for _ in 0..generations {
        let fitness = fitness_of(&p);
        let noise = noise_for(&p, &mut rng);
        let b = p.next_generation(&fitness, &noise, &mut rng);
        trace.push(b.get_fitness());
        best = Some(b);
    }
    (best.unwrap().free_colors, trace)
}

#[test]
fn runs_on_a_fixed_seed_are_deterministic() {
    let first = run(42, 30);
    let second = run(42, 30);
    assert_eq!(first, second);
    assert_eq!(first.1.len(), 30);
}

#[test]
fn best_fitness_never_drops_with_elitism() {
    let (_, trace) = run(9, 40);
    for w in trace.windows(2) {
        assert!(w[1] >= w[0]);
    }
}

#[test]
fn new_population_defaults() {
    let p = Population::new((0..3).map(scheme).collect(), luminance_problem());
    assert_eq!(p.genotypes.len(), 3);
    assert_eq!(p.mutation_index, 100);
    assert_eq!(p.elitism, 1);
    assert_eq!(p.problem_description.free_color_count, 2);
}

#[test]
fn every_child_mutated_with_full_index() {
    let mut p = Population::new((0..4).map(scheme).collect(), luminance_problem());
    p.elitism = 0;
    let fitness = fitness_of(&p);
    let old: Vec<ColorScheme> = p.genotypes.iter().map(|g| g.duplicate()).collect();
    let noise: Vec<Vec<Shift>> = vec![vec![Shift { l: 1, a: 0, b: 0 }; 2]; 4];
    let mut rng = StdRng::seed_from_u64(8);
    p.next_generation(&fitness, &noise, &mut rng);
    for child in p.genotypes.iter() {
        let found = old.iter().any(|a| {
            old.iter().any(|b| {
                let c = a.crossover(b).mutated(&noise[0]);
                c.free_colors == child.free_colors
            })
        });
        assert!(found);
    }
}
