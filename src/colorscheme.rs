use vstd::prelude::*;
use vstd::seq_lib::{to_multiset_build, to_multiset_insert};
use crate::color::{chroma, chroma_of, hue_key, hue_of, midpoint, midpoint_spec, shifted, shifted_spec, Color, Shift};
use crate::fitness::{ColorSchemeProblemDescription, FitnessData};
use crate::stats::{summary_of, StatValues};
use crate::genetic::Genotype;
use crate::words::views;
use vstd::seq_lib::to_multiset_contains;

verus! {

/// A candidate palette: the free colors that evolve, and the fitness that
/// the engine last gave it.
#[derive(Debug)]
pub struct ColorScheme {
    pub free_colors: Vec<Color>,
    pub fitness: i64,
}

/// `sorted` holds the colors of `s`, ordered by hue.
pub open spec fn is_hue_sorting(sorted: Seq<Color>, s: Seq<Color>) -> bool {
    &&& sorted.to_multiset() == s.to_multiset()
    &&& sorted.len() == s.len()
    &&& forall|i: int, j: int| 0 <= i < j < sorted.len() ==> hue_of(#[trigger] sorted[i]) <= hue_of(#[trigger] sorted[j])
}

/// Number of leading colors of `s` whose hue key is at most `k`: where a
/// color of key `k` goes in `s`, after the colors of equal key.
pub open spec fn insert_pos(s: Seq<Color>, k: int) -> int
    decreases s.len(),
{
    if s.len() == 0 {
        0
    } else if hue_of(s[0]) <= k {
        1 + insert_pos(s.drop_first(), k)
    } else {
        0
    }
}

/// `s` sorted by hue key, colors of equal key in their order in `s`.
pub open spec fn hue_sort(s: Seq<Color>) -> Seq<Color>
    decreases s.len(),
{
    if s.len() == 0 {
        s
    } else {
        let t = hue_sort(s.drop_last());
        t.insert(insert_pos(t, hue_of(s.last())), s.last())
    }
}

/// The midpoints of the colors that stand at the same position in `x` and `y`.
pub open spec fn midpoints(x: Seq<Color>, y: Seq<Color>) -> Seq<Color> {
    Seq::new(
        if x.len() <= y.len() { x.len() } else { y.len() },
        |i: int| midpoint_spec(x[i], y[i]),
    )
}

/// `child` is the crossover of `a` and `b`: both parents are sorted by hue,
/// and the child's colors are the midpoints of the colors at equal positions.
pub open spec fn is_crossover(child: Seq<Color>, a: Seq<Color>, b: Seq<Color>) -> bool {
    child == midpoints(hue_sort(a), hue_sort(b))
}

/// Each color of `s` moved by the shift at its position and clamped.
pub open spec fn shifted_all(s: Seq<Color>, noise: Seq<Shift>) -> Seq<Color> {
    Seq::new(s.len(), |i: int| shifted_spec(s[i], noise[i]))
}

/// The rows of `m`, each from column `i + 1` on where `upper` holds
/// (the entries above the diagonal), and whole otherwise.
pub open spec fn row_parts(m: Seq<Seq<i32>>, upper: bool) -> Seq<Seq<i32>> {
    Seq::new(m.len(), |i: int| if upper { m[i].subrange(i + 1, m[i].len() as int) } else { m[i] })
}

/// `m` has `rows` rows of `cols` entries each.
pub open spec fn has_shape(m: Seq<Vec<i32>>, rows: int, cols: int) -> bool {
    &&& m.len() == rows
    &&& forall|i: int| 0 <= i < rows ==> (#[trigger] m[i])@.len() == cols
}

/// The samples of a palette with free colors `free`, given the distances
/// from each fixed color to each free color (`fixed_dist[i][j]`) and
/// between the free colors (`free_dist[i][j]`).
pub open spec fn fitness_data_of(free: Seq<Color>, fixed_dist: Seq<Seq<i32>>, free_dist: Seq<Seq<i32>>) -> FitnessData {
    FitnessData {
        chroma: summary_of(free.map_values(|c: Color| chroma_of(c) as i32)),
        luminance: summary_of(free.map_values(|c: Color| c.l)),
        fixed_distance: summary_of(row_parts(fixed_dist, false).flatten()),
        free_distance: summary_of(row_parts(free_dist, true).flatten()),
    }
}

/// A copy of `v`.
pub fn copy_colors(v: &Vec<Color>) -> (r: Vec<Color>)
    ensures
        r@ == v@,
{
    let mut r: Vec<Color> = Vec::new();
    let mut i: usize = 0;
    while i < v.len()
        invariant
            i <= v@.len(),
            r@ == v@.subrange(0, i as int),
        decreases v@.len() - i,
    {
        r.push(v[i]);
        i = i + 1;
    }
    assert(v@.subrange(0, v@.len() as int) == v@);
    r
}

/// The entries of `m` row by row; with `upper`, only those right of the diagonal.
fn gather(m: &Vec<Vec<i32>>, upper: bool) -> (r: Vec<i32>)
    requires
        upper ==> has_shape(m@, m@.len() as int, m@.len() as int),
    ensures
        r@ == row_parts(views(m@), upper).flatten(),
{
    let ghost parts = row_parts(views(m@), upper);
    let mut r: Vec<i32> = Vec::new();
    let mut i: usize = 0;
    while i < m.len()
        invariant
            i <= m@.len(),
            parts == row_parts(views(m@), upper),
            upper ==> has_shape(m@, m@.len() as int, m@.len() as int),
            r@ == parts.subrange(0, i as int).flatten(),
        decreases m@.len() - i,
    {
        let ghost row = m@[i as int]@;
        assert(upper ==> row.len() == m@.len());
        let start: usize = if upper { i + 1 } else { 0 };
        let mut j: usize = start;
        let ghost before = r@;
        while j < m[i].len()
            invariant
                i < m@.len(),
                start <= j <= row.len(),
                upper ==> start == i + 1,
                !upper ==> start == 0,
                row == m@[i as int]@,
                r@ == before + row.subrange(start as int, j as int),
            decreases row.len() - j,
        {
            let x = m[i][j];
            r.push(x);
            assert(r@ =~= before + row.subrange(start as int, j + 1));
            j = j + 1;
        }
        proof {
            assert(parts[i as int] == row.subrange(start as int, row.len() as int));
            assert(parts.subrange(0, i as int + 1) == parts.subrange(0, i as int).push(parts[i as int]));
            parts.subrange(0, i as int).lemma_flatten_push(parts[i as int]);
        }
        i = i + 1;
    }
    assert(parts.subrange(0, m@.len() as int) == parts);
    r
}

proof fn lemma_insert_pos(s: Seq<Color>, k: int)
    ensures
        0 <= insert_pos(s, k) <= s.len(),
        forall|i: int| 0 <= i < insert_pos(s, k) ==> hue_of(#[trigger] s[i]) <= k,
        insert_pos(s, k) < s.len() ==> hue_of(s[insert_pos(s, k)]) > k,
    decreases s.len(),
{
    if s.len() > 0 && hue_of(s[0]) <= k {
        lemma_insert_pos(s.drop_first(), k);
        assert forall|i: int| 0 <= i < insert_pos(s, k) implies hue_of(#[trigger] s[i]) <= k by {
            if i > 0 {
                assert(s[i] == s.drop_first()[i - 1]);
            }
        }
    }
}

/// [`hue_sort`] orders by hue and keeps every color.
pub proof fn lemma_hue_sort(s: Seq<Color>)
    ensures
        is_hue_sorting(hue_sort(s), s),
    decreases s.len(),
{
    if s.len() > 0 {
        let t = hue_sort(s.drop_last());
        let x = s.last();
        let k = hue_of(x);
        let j = insert_pos(t, k);
        let r = hue_sort(s);
        lemma_hue_sort(s.drop_last());
        lemma_insert_pos(t, k);
        assert(r == t.insert(j, x));
        to_multiset_insert(t, j, x);
        assert(s.drop_last().push(x) == s);
        to_multiset_build(s.drop_last(), x);
        if j < t.len() {
            assert(hue_of(t[j]) > k);
        }
        assert forall|p: int, q: int| 0 <= p < q < r.len() implies hue_of(#[trigger] r[p]) <= hue_of(#[trigger] r[q]) by {
            if p < j && q > j {
                assert(hue_of(t[p]) <= k);
                assert(hue_of(t[j]) <= hue_of(t[q - 1]) || q - 1 == j);
            } else if p == j && q > j {
                assert(hue_of(t[j]) <= hue_of(t[q - 1]) || q - 1 == j);
            } else if p < j && q == j {
                assert(hue_of(t[p]) <= k);
            }
        }
    }
}

/// The colors of `colors` ordered by hue; colors of equal hue key keep their order.
pub fn sorted_by_hue(colors: &Vec<Color>) -> (r: Vec<Color>)
    ensures
        r@ == hue_sort(colors@),
        is_hue_sorting(r@, colors@),
{
    let mut out: Vec<Color> = Vec::new();
    let mut i: usize = 0;
    assert(colors@.subrange(0, 0) =~= out@);
    while i < colors.len()
        invariant
            i <= colors@.len(),
            out@ == hue_sort(colors@.subrange(0, i as int)),
        decreases colors@.len() - i,
    {
        let c = colors[i];
        let k = hue_key(&c);
        let mut j: usize = 0;
        assert(out@.subrange(0, out@.len() as int) == out@);
        while j < out.len() && hue_key(&out[j]) <= k
            invariant
                j <= out@.len(),
                insert_pos(out@, k as int) == j + insert_pos(out@.subrange(j as int, out@.len() as int), k as int),
            decreases out@.len() - j,
        {
            assert(out@.subrange(j as int, out@.len() as int).drop_first() == out@.subrange(j as int + 1, out@.len() as int));
            j = j + 1;
        }
        assert(insert_pos(out@, k as int) == j);
        assert(colors@.subrange(0, i as int + 1).drop_last() == colors@.subrange(0, i as int));
        out.insert(j, c);
        i = i + 1;
    }
    assert(colors@.subrange(0, colors@.len() as int) == colors@);
    proof {
        lemma_hue_sort(colors@);
    }
    out
}

impl ColorScheme {
    /// Every free color lies within the legal axis ranges.
    pub open spec fn in_bounds(&self) -> bool {
        forall|i: int| 0 <= i < self.free_colors@.len() ==> (#[trigger] self.free_colors@[i]).in_bounds()
    }

    /// A palette of the given free colors, with fitness 0.
    pub fn new(free_colors: Vec<Color>) -> (r: ColorScheme)
        ensures
            r.free_colors@ == free_colors@,
            r.fitness == 0,
    {
        ColorScheme { free_colors, fitness: 0 }
    }

    /// The summaries of the palette's samples: chroma and lightness of each
    /// free color, `fixed_dist` (`fixed_dist[i][j]` the distance from fixed
    /// color `i` to free color `j`) and the distances between distinct free
    /// colors (`free_dist[i][j]` for `i < j`, each pair once).
    pub fn fitness_data(
        &self,
        descr: &ColorSchemeProblemDescription,
        fixed_dist: &Vec<Vec<i32>>,
        free_dist: &Vec<Vec<i32>>,
    ) -> (r: FitnessData)
        requires
            self.in_bounds(),
            self.free_colors@.len() <= u32::MAX,
            has_shape(fixed_dist@, descr.fixed_colors@.len() as int, self.free_colors@.len() as int),
            has_shape(free_dist@, self.free_colors@.len() as int, self.free_colors@.len() as int),
            descr.fixed_colors@.len() * self.free_colors@.len() <= u32::MAX,
            self.free_colors@.len() * self.free_colors@.len() <= u32::MAX,
        ensures
            r == fitness_data_of(self.free_colors@, views(fixed_dist@), views(free_dist@)),
    {
        let free = &self.free_colors;
        let n = free.len();
        let mut chromas: Vec<i32> = Vec::new();
        let mut lums: Vec<i32> = Vec::new();
        let mut i: usize = 0;
        while i < n
            invariant
                n == free@.len(),
                self.in_bounds(),
                free@ == self.free_colors@,
                i <= n,
                chromas@ == free@.subrange(0, i as int).map_values(|c: Color| chroma_of(c) as i32),
                lums@ == free@.subrange(0, i as int).map_values(|c: Color| c.l),
            decreases n - i,
        {
            let c = free[i];
            assert(free@[i as int].in_bounds());
            let ch = chroma(&c);
            chromas.push(ch);
            lums.push(c.l);
            i = i + 1;
            assert(chromas@ == free@.subrange(0, i as int).map_values(|c: Color| chroma_of(c) as i32));
            assert(lums@ == free@.subrange(0, i as int).map_values(|c: Color| c.l));
        }
        assert(free@.subrange(0, n as int) == free@);
        let fixed_sample = gather(fixed_dist, false);
        let free_sample = gather(free_dist, true);
        proof {
            lemma_flatten_len_bound(row_parts(views(fixed_dist@), false), n as int);
            lemma_flatten_len_bound(row_parts(views(free_dist@), true), n as int);
        }
        FitnessData {
            chroma: StatValues::from(&chromas),
            luminance: StatValues::from(&lums),
            fixed_distance: StatValues::from(&fixed_sample),
            free_distance: StatValues::from(&free_sample),
        }
    }
}

impl Genotype for ColorScheme {
    type Noise = Vec<Shift>;
    type Genes = Seq<Color>;

    open spec fn genes(&self) -> Seq<Color> {
        self.free_colors@
    }

    open spec fn fitness(&self) -> i64 {
        self.fitness
    }

    /// `size` colors, each within the legal axis ranges.
    open spec fn genes_fit(genes: Seq<Color>, size: nat) -> bool {
        genes.len() == size && all_in_bounds(genes)
    }

    open spec fn noise_size(noise: Vec<Shift>) -> nat {
        noise@.len()
    }

    open spec fn is_crossover(child: Seq<Color>, a: Seq<Color>, b: Seq<Color>) -> bool {
        is_crossover(child, a, b)
    }

    open spec fn is_mutation(child: Seq<Color>, parent: Seq<Color>, noise: Vec<Shift>) -> bool {
        child == shifted_all(parent, noise@)
    }

    /// Each free color perturbed by the shift at its position, then clamped
    /// axis by axis to the legal ranges. The fitness of the result is 0.
    fn mutated(&self, noise: &Vec<Shift>) -> (r: ColorScheme) {
        let n = self.free_colors.len();
        let mut out: Vec<Color> = Vec::new();
        let mut i: usize = 0;
        while i < n
            invariant
                n == self.free_colors@.len(),
                noise@.len() == n,
                i <= n,
                out@ == shifted_all(self.free_colors@, noise@).subrange(0, i as int),
            decreases n - i,
        {
            let c = shifted(&self.free_colors[i], &noise[i]);
            out.push(c);
            i = i + 1;
            assert(out@ =~= shifted_all(self.free_colors@, noise@).subrange(0, i as int));
        }
        assert(out@ =~= shifted_all(self.free_colors@, noise@));
        let r = ColorScheme { free_colors: out, fitness: 0 };
        assert(r.in_bounds());
        r
    }

    /// The child of this palette and `other`: both are sorted by hue, and
    /// the child's colors are the midpoints of the colors at equal positions
    /// (as many as the shorter parent has). The fitness of the result is 0.
    fn crossover(&self, other: &ColorScheme) -> (r: ColorScheme) {
        let sa = sorted_by_hue(&self.free_colors);
        let sb = sorted_by_hue(&other.free_colors);
        let n = if sa.len() <= sb.len() { sa.len() } else { sb.len() };
        let mut out: Vec<Color> = Vec::new();
        let mut i: usize = 0;
        while i < n
            invariant
                n == midpoints(sa@, sb@).len(),
                i <= n,
                out@ == midpoints(sa@, sb@).subrange(0, i as int),
            decreases n - i,
        {
            out.push(midpoint(&sa[i], &sb[i]));
            i = i + 1;
            assert(out@ =~= midpoints(sa@, sb@).subrange(0, i as int));
        }
        assert(out@ =~= midpoints(sa@, sb@));
        assert(is_crossover(out@, self.free_colors@, other.free_colors@));
        proof {
            assert forall|size: nat|
                Self::genes_fit(self.genes(), size) && Self::genes_fit(other.genes(), size) implies #[trigger] Self::genes_fit(
                out@,
                size,
            ) by {
                lemma_crossover_shape(out@, self.free_colors@, other.free_colors@, size as int);
            }
        }
        ColorScheme { free_colors: out, fitness: 0 }
    }

    /// A copy of this palette, fitness included.
    fn duplicate(&self) -> (r: ColorScheme) {
        ColorScheme { free_colors: copy_colors(&self.free_colors), fitness: self.fitness }
    }

    fn get_fitness(&self) -> (r: i64) {
        self.fitness
    }

    fn set_fitness(&mut self, fitness: i64) {
        self.fitness = fitness;
    }
}

/// A mutation leaves every color within the legal axis ranges, whatever the
/// colors and the shifts were.
pub proof fn mutation_stays_in_bounds(parent: Seq<Color>, noise: Seq<Shift>)
    requires
        noise.len() == parent.len(),
    ensures
        all_in_bounds(shifted_all(parent, noise)),
{
}

/// Every color of a crossover lies, axis by axis, between the two parent
/// colors that were paired to make it, once both parents are sorted by hue.
pub proof fn crossover_between_parents(child: Seq<Color>, a: Seq<Color>, b: Seq<Color>)
    requires
        is_crossover(child, a, b),
    ensures
        forall|i: int| 0 <= i < child.len() ==> axes_between(#[trigger] child[i], hue_sort(a)[i], hue_sort(b)[i]),
{
    let (sa, sb) = (hue_sort(a), hue_sort(b));
    assert forall|i: int| 0 <= i < child.len() implies axes_between(#[trigger] child[i], sa[i], sb[i]) by {
        let (x, y) = (sa[i], sb[i]);
        assert(x.l <= y.l ==> x.l <= (x.l + y.l) / 2 <= y.l);
        assert(y.l < x.l ==> y.l <= (x.l + y.l) / 2 <= x.l);
        assert(x.a <= y.a ==> x.a <= (x.a + y.a) / 2 <= y.a);
        assert(y.a < x.a ==> y.a <= (x.a + y.a) / 2 <= x.a);
        assert(x.b <= y.b ==> x.b <= (x.b + y.b) / 2 <= y.b);
        assert(y.b < x.b ==> y.b <= (x.b + y.b) / 2 <= x.b);
    }
}

pub open spec fn between(v: int, x: int, y: int) -> bool {
    (x <= v <= y) || (y <= v <= x)
}

/// Each axis of `c` lies between the same axis of `x` and of `y`.
pub open spec fn axes_between(c: Color, x: Color, y: Color) -> bool {
    &&& between(c.l as int, x.l as int, y.l as int)
    &&& between(c.a as int, x.a as int, y.a as int)
    &&& between(c.b as int, x.b as int, y.b as int)
}

/// All colors of `s` lie within the legal axis ranges.
pub open spec fn all_in_bounds(s: Seq<Color>) -> bool {
    forall|i: int| 0 <= i < s.len() ==> (#[trigger] s[i]).in_bounds()
}

/// A crossover of two parents of `m` legal colors has `m` legal colors.
pub proof fn lemma_crossover_shape(child: Seq<Color>, a: Seq<Color>, b: Seq<Color>, m: int)
    requires
        is_crossover(child, a, b),
        a.len() == m,
        b.len() == m,
        all_in_bounds(a),
        all_in_bounds(b),
    ensures
        child.len() == m,
        all_in_bounds(child),
{
    let (sa, sb) = (hue_sort(a), hue_sort(b));
    lemma_hue_sort(a);
    lemma_hue_sort(b);
    lemma_sorting_in_bounds(sa, a);
    lemma_sorting_in_bounds(sb, b);
    assert forall|i: int| 0 <= i < child.len() implies (#[trigger] child[i]).in_bounds() by {
        assert(sa[i].in_bounds() && sb[i].in_bounds());
    }
}

proof fn lemma_sorting_in_bounds(sorted: Seq<Color>, s: Seq<Color>)
    requires
        is_hue_sorting(sorted, s),
        all_in_bounds(s),
    ensures
        all_in_bounds(sorted),
{
    assert forall|i: int| 0 <= i < sorted.len() implies (#[trigger] sorted[i]).in_bounds() by {
        let c = sorted[i];
        to_multiset_contains(sorted, c);
        to_multiset_contains(s, c);
        assert(sorted.contains(c));
        assert(s.contains(c));
    }
}

proof fn lemma_flatten_len_bound(m: Seq<Seq<i32>>, k: int)
    requires
        0 <= k,
        forall|i: int| 0 <= i < m.len() ==> (#[trigger] m[i]).len() <= k,
    ensures
        m.flatten().len() <= m.len() * k,
{
    m.lemma_flatten_length_le_mul(k);
    m.lemma_flatten_and_flatten_alt_are_equivalent();
}

} // verus!
