use palette_evolve::{
    Genotype,
    chroma, deutan, hue_key, midpoint, protan, shifted, sorted_by_hue, Color, ColorScheme, LinTriple, Rgb8,
    Shift, AB_MAX, L_MAX,
};

fn c(l: i32, a: i32, b: i32) -> Color {
    Color { l, a, b }
}

fn within(x: i32, p: i32, q: i32) -> bool {
    (p <= x && x <= q) || (q <= x && x <= p)
}

#[test]
fn chroma_is_the_rounded_down_root() {
    assert_eq!(chroma(&c(50000, 3000, 4000)), 5000);
    assert_eq!(chroma(&c(50000, 1, 1)), 1);
    assert_eq!(chroma(&c(0, -AB_MAX, -AB_MAX)), 181019);
}

#[test]
fn hue_key_follows_the_hue_angle() {
    let red = hue_key(&c(50000, 10000, 0));
    let orange = hue_key(&c(50000, 10000, 5000));
    let yellow = hue_key(&c(50000, 0, 10000));
    let green = hue_key(&c(50000, -10000, 1));
    let blue = hue_key(&c(50000, 0, -10000));
    let purple = hue_key(&c(50000, 10000, -1));
    assert!(red < orange && orange < yellow && yellow < green && green < blue && blue < purple);
    assert_eq!(hue_key(&c(50000, 0, 0)), 0);
}

#[test]
fn midpoint_rounds_down() {
    assert_eq!(midpoint(&c(0, -1, 3), &c(1, 0, 4)), c(0, -1, 3));
    assert_eq!(midpoint(&c(100, -128000, 128000), &c(300, 128000, 128000)), c(200, 0, 128000));
}

#[test]
fn shifted_clamps_each_axis() {
    let r = shifted(&c(99000, 127000, -127000), &Shift { l: 5000, a: 5000, b: -5000 });
    assert_eq!(r, c(L_MAX, AB_MAX, -AB_MAX));
    let r = shifted(&c(1000, 0, 0), &Shift { l: -5000, a: 7, b: -7 });
    assert_eq!(r, c(0, 7, -7));
}

#[test]
fn mutation_stays_in_bounds() {
    let scheme = ColorScheme::new(vec![c(0, -AB_MAX, AB_MAX), c(L_MAX, 0, 0), c(50000, 1000, -1000)]);
    let noise = vec![
        Shift { l: i32::MIN, a: i32::MIN, b: i32::MAX },
        Shift { l: i32::MAX, a: i32::MAX, b: i32::MIN },
        Shift { l: 100, a: -100, b: 100 },
    ];
    let m = scheme.mutated(&noise);
    assert_eq!(m.free_colors, vec![c(0, -AB_MAX, AB_MAX), c(L_MAX, AB_MAX, -AB_MAX), c(50100, 900, -900)]);
    assert_eq!(m.get_fitness(), 0);
}

#[test]
fn sorting_by_hue_is_stable() {
    let colors = vec![c(1, 0, -10), c(2, 10, 0), c(3, 0, 10), c(4, 20, 0)];
    assert_eq!(sorted_by_hue(&colors), vec![c(2, 10, 0), c(4, 20, 0), c(3, 0, 10), c(1, 0, -10)]);
}

#[test]
fn crossover_pairs_colors_sorted_by_hue() {
    let a = ColorScheme::new(vec![c(10000, 0, -10000), c(20000, 10000, 0)]);
    let b = ColorScheme::new(vec![c(30000, 0, 20000), c(40000, 0, -20000)]);
    let child = a.crossover(&b);
    assert_eq!(child.free_colors, vec![c(25000, 5000, 10000), c(25000, 0, -15000)]);
    let sa = sorted_by_hue(&a.free_colors);
    let sb = sorted_by_hue(&b.free_colors);
    for i in 0..child.free_colors.len() {
        let x = child.free_colors[i];
        assert!(within(x.l, sa[i].l, sb[i].l));
        assert!(within(x.a, sa[i].a, sb[i].a));
        assert!(within(x.b, sa[i].b, sb[i].b));
    }
}

#[test]
fn crossover_keeps_the_shorter_length() {
    let a = ColorScheme::new(vec![c(10000, 1, 1)]);
    let b = ColorScheme::new(vec![c(20000, 1, 1), c(30000, 1, 1)]);
    assert_eq!(a.crossover(&b).free_colors.len(), 1);
}

#[test]
fn fitness_cache_is_set_and_copied() {
    let mut s = ColorScheme::new(vec![c(1, 2, 3)]);
    assert_eq!(s.get_fitness(), 0);
    s.set_fitness(-42);
    let d = s.duplicate();
    assert_eq!(d.get_fitness(), -42);
    assert_eq!(d.free_colors, s.free_colors);
}

#[test]
fn filters_on_white_and_black() {
    let white = LinTriple::new(32767, 32767, 32767).unwrap();
    let black = LinTriple::new(0, 0, 0).unwrap();
    assert_eq!(deutan().transform(&white), Rgb8 { red: 255, green: 255, blue: 255 });
    assert_eq!(protan().transform(&black), Rgb8 { red: 0, green: 0, blue: 0 });
}

#[test]
fn filter_weights_channels() {
    let red = LinTriple::new(32767, 0, 0).unwrap();
    // deutan: 9591 * 32767 >> 22 = 74; blue: -730 * 32767 >> 22 = -6, clamped to 0
    assert_eq!(deutan().transform(&red), Rgb8 { red: 74, green: 74, blue: 0 });
    // protan: 3683 * 32767 >> 22 = 28; blue: 131 * 32767 >> 22 = 1
    assert_eq!(protan().transform(&red), Rgb8 { red: 28, green: 28, blue: 1 });
}

#[test]
fn lin_triple_rejects_out_of_range_channels() {
    assert!(LinTriple::new(-1, 0, 0).is_none());
    assert!(LinTriple::new(0, 32768, 0).is_none());
    assert!(LinTriple::new(0, 0, 32767).is_some());
}

#[test]
fn copies_are_equal() {
    let v = vec![c(1, 2, 3), c(4, 5, 6)];
    assert_eq!(palette_evolve::copy_colors(&v), v);
    assert_eq!(palette_evolve::copy_colors(&vec![]), Vec::<Color>::new());
}
