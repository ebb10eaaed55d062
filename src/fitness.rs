use vstd::prelude::*;
use crate::color::{clamp, Color};
use crate::stats::{Stat, StatValues};
use crate::genetic::ProblemDescription;

verus! {

/// One in fixed point: every measured quantity is held in thousandths.
pub const UNIT: i64 = 1000;

/// The fitness of a palette on which some target reads a statistic of an
/// empty sample: such a palette ranks below every palette whose fitness is defined.
pub const UNDEFINED_FITNESS: i64 = -0x8000_0000_0000_0000;

/// A measurable quantity of a palette.
#[derive(Clone, Copy, Debug, PartialEq, Eq, Hash, Structural)]
pub enum Parameter {
    /// Chroma of each free color.
    Chroma,
    /// Lightness of each free color.
    Luminance,
    /// Distance between each fixed and each free color.
    FixedDistance,
    /// Distance between each two distinct free colors.
    FreeDistance,
}

/// Whether a target pushes its statistic up, down, or towards a value.
#[derive(Clone, Copy, Debug, PartialEq, Eq, Structural)]
pub enum TargetDirection {
    Maximize,
    Minimize,
    Approximate(i64),
}

/// The curve `(factor * v)^exponent` that shapes a target's contribution.
#[derive(Clone, Copy, Debug, PartialEq, Eq, Structural)]
pub struct Strength {
    pub factor: i64,
    pub exponent: i32,
}

/// One optimization objective.
#[derive(Clone, Copy, Debug, PartialEq, Eq, Structural)]
pub struct Target {
    pub direction: TargetDirection,
    pub stat: Stat,
    pub parameter: Parameter,
    pub strength: Strength,
}

/// The summary of each sample of a palette; `None` for an empty sample.
#[derive(Clone, Copy, Debug, PartialEq, Eq, Structural)]
pub struct FitnessData {
    pub chroma: Option<StatValues>,
    pub luminance: Option<StatValues>,
    pub fixed_distance: Option<StatValues>,
    pub free_distance: Option<StatValues>,
}

/// What a palette is optimized for: how many free colors it has, the fixed
/// colors they are seen against, and at most one target per statistic and
/// parameter.
#[derive(Clone, Debug)]
pub struct ColorSchemeProblemDescription {
    pub free_color_count: usize,
    pub fixed_colors: Vec<Color>,
    pub fitness_targets: Vec<Target>,
}

pub open spec fn sat64(x: int) -> int {
    clamp(x, i64::MIN as int, i64::MAX as int)
}

/// `n / d` rounded towards zero, for `d > 0`.
pub open spec fn trunc_div(n: int, d: int) -> int {
    if n >= 0 { n / d } else { -((-n) / d) }
}

/// Fixed-point product, rounded towards zero and saturated to `i64`.
pub open spec fn fx_mul(x: int, y: int) -> int {
    sat64(trunc_div(x * y, UNIT as int))
}

/// Fixed-point power by repeated fixed-point multiplication.
pub open spec fn fx_pow(x: int, e: nat) -> int
    decreases e,
{
    if e == 0 { UNIT as int } else { fx_mul(fx_pow(x, (e - 1) as nat), x) }
}

/// Fixed-point reciprocal, rounded towards zero; that of zero saturates to `i64::MAX`.
pub open spec fn fx_recip(p: int) -> int {
    if p == 0 {
        i64::MAX as int
    } else if p > 0 {
        (UNIT * UNIT) / p
    } else {
        -((UNIT * UNIT) / (-p))
    }
}

pub open spec fn abs(x: int) -> int {
    if x < 0 { -x } else { x }
}

impl Strength {
    pub open spec fn apply(self, v: int) -> int {
        let x = fx_mul(self.factor as int, v);
        if self.exponent >= 0 {
            fx_pow(x, self.exponent as nat)
        } else {
            fx_recip(fx_pow(x, (-self.exponent) as nat))
        }
    }
}

impl FitnessData {
    pub open spec fn of(self, p: Parameter) -> Option<StatValues> {
        match p {
            Parameter::Chroma => self.chroma,
            Parameter::Luminance => self.luminance,
            Parameter::FixedDistance => self.fixed_distance,
            Parameter::FreeDistance => self.free_distance,
        }
    }

    /// The summary of the sample of `p`.
    pub fn get(&self, p: Parameter) -> (r: Option<StatValues>)
        ensures
            r == self.of(p),
    {
        match p {
            Parameter::Chroma => self.chroma,
            Parameter::Luminance => self.luminance,
            Parameter::FixedDistance => self.fixed_distance,
            Parameter::FreeDistance => self.free_distance,
        }
    }
}

impl Target {
    pub open spec fn key(self) -> (Stat, Parameter) {
        (self.stat, self.parameter)
    }

    /// The statistic that the target reads, if its sample is not empty.
    pub open spec fn value_of(self, data: FitnessData) -> Option<int> {
        match data.of(self.parameter) {
            Some(v) => Some(v.stat(self.stat) as int),
            None => None,
        }
    }

    /// The target's contribution to the fitness, if its sample is not empty.
    pub open spec fn contribution(self, data: FitnessData) -> Option<int> {
        match self.value_of(data) {
            Some(v) => Some(
                match self.direction {
                    TargetDirection::Maximize => self.strength.apply(v),
                    TargetDirection::Minimize => sat64(-self.strength.apply(v)),
                    TargetDirection::Approximate(t) => sat64(
                        -self.strength.apply(sat64(abs(t - v))),
                    ),
                },
            ),
            None => None,
        }
    }

    pub fn new(direction: TargetDirection, stat: Stat, parameter: Parameter, strength: Strength) -> (r: Target)
        ensures
            r == (Target { direction, stat, parameter, strength }),
    {
        Target { direction, stat, parameter, strength }
    }

    /// The statistic that the target reads.
    pub fn value(&self, data: &FitnessData) -> (r: Option<i64>)
        ensures
            r matches Some(x) ==> self.value_of(*data) == Some(x as int),
            r is None <==> self.value_of(*data) is None,
    {
        match data.get(self.parameter) {
            Some(v) => Some(v.get(self.stat)),
            None => None,
        }
    }

    /// The target's contribution: `+strength(v)` to maximize `v`,
    /// `-strength(v)` to minimize it, `-strength(|t - v|)` to approximate `t`.
    /// `None` where the sample that the target reads is empty.
    pub fn calculate(&self, data: &FitnessData) -> (r: Option<i64>)
        ensures
            r matches Some(x) ==> self.contribution(*data) == Some(x as int),
            r is None <==> self.contribution(*data) is None,
    {
        let v = match self.value(data) {
            Some(v) => v,
            None => return None,
        };
        let r = match self.direction {
            TargetDirection::Maximize => self.strength.calculate(v),
            TargetDirection::Minimize => neg_sat(self.strength.calculate(v)),
            TargetDirection::Approximate(t) => {
                let diff = abs_diff_sat(t, v);
                neg_sat(self.strength.calculate(diff))
            },
        };
        Some(r)
    }
}

fn neg_sat(x: i64) -> (r: i64)
    ensures
        r == sat64(-x),
{
    if x == i64::MIN { i64::MAX } else { -x }
}

fn abs_diff_sat(t: i64, v: i64) -> (r: i64)
    ensures
        r == sat64(abs(t - v)),
{
    let d: i128 = t as i128 - v as i128;
    let m: i128 = if d < 0 { -d } else { d };
    if m > i64::MAX as i128 { i64::MAX } else { m as i64 }
}

fn sat_i128(x: i128) -> (r: i64)
    ensures
        r == sat64(x as int),
{
    if x > i64::MAX as i128 {
        i64::MAX
    } else if x < i64::MIN as i128 {
        i64::MIN
    } else {
        x as i64
    }
}

/// Fixed-point product of `x` and `y`.
pub fn fx_multiply(x: i64, y: i64) -> (r: i64)
    ensures
        r == fx_mul(x as int, y as int),
{
    assert(-0x4000_0000_0000_0000_0000_0000_0000_0000int <= x * y <= 0x4000_0000_0000_0000_0000_0000_0000_0000int) by (nonlinear_arith)
        requires i64::MIN <= x <= i64::MAX, i64::MIN <= y <= i64::MAX;
    let p: i128 = x as i128 * y as i128;
    let q: i128 = if p >= 0 { p / 1000 } else { -((-p) / 1000) };
    sat_i128(q)
}

/// Fixed-point power `x^e`.
pub fn fx_power(x: i64, e: u32) -> (r: i64)
    ensures
        r == fx_pow(x as int, e as nat),
{
    let mut acc: i64 = UNIT;
    let mut i: u32 = 0;
    while i < e
        invariant
            i <= e,
            acc == fx_pow(x as int, i as nat),
        decreases e - i,
    {
        acc = fx_multiply(acc, x);
        i = i + 1;
    }
    acc
}

fn fx_reciprocal(p: i64) -> (r: i64)
    ensures
        r == fx_recip(p as int),
{
    if p == 0 {
        i64::MAX
    } else if p > 0 {
        1_000_000 / p
    } else {
        let m: i128 = -(p as i128);
        -((1_000_000i128 / m) as i64)
    }
}

impl Strength {
    /// `(factor * v)^exponent` in fixed point.
    pub fn calculate(&self, v: i64) -> (r: i64)
        ensures
            r == self.apply(v as int),
    {
        let x = fx_multiply(self.factor, v);
        if self.exponent >= 0 {
            fx_power(x, self.exponent as u32)
        } else {
            let e: u32 = (-(self.exponent as i64)) as u32;
            fx_reciprocal(fx_power(x, e))
        }
    }
}

/// Sum of the contributions of `ts`, saturated to `i64` after each
/// addition; `None` where one of them reads an empty sample.
pub open spec fn targets_sum(ts: Seq<Target>, data: FitnessData) -> Option<int>
    decreases ts.len(),
{
    if ts.len() == 0 {
        Some(0)
    } else {
        match (targets_sum(ts.drop_last(), data), ts.last().contribution(data)) {
            (Some(a), Some(b)) => Some(sat64(a + b)),
            _ => None,
        }
    }
}

/// The fitness that `ts` give a palette summarized by `data`.
pub open spec fn fitness_of(ts: Seq<Target>, data: FitnessData) -> int {
    match targets_sum(ts, data) {
        Some(f) => f,
        None => UNDEFINED_FITNESS as int,
    }
}

impl ColorSchemeProblemDescription {
    /// No two targets share a statistic and a parameter.
    pub open spec fn wf(&self) -> bool {
        forall|i: int, j: int|
            0 <= i < j < self.fitness_targets@.len() ==> (#[trigger] self.fitness_targets@[i]).key()
                != (#[trigger] self.fitness_targets@[j]).key()
    }

    /// A problem with the given colors and no targets.
    pub fn new(free_color_count: usize, fixed_colors: Vec<Color>) -> (r: Self)
        ensures
            r.wf(),
            r.free_color_count == free_color_count,
            r.fixed_colors@ == fixed_colors@,
            r.fitness_targets@.len() == 0,
    {
        ColorSchemeProblemDescription { free_color_count, fixed_colors, fitness_targets: Vec::new() }
    }

    /// Sets `target`, replacing the target with the same statistic and
    /// parameter where there is one, and adding it at the end otherwise.
    pub fn set(&mut self, target: Target)
        requires
            old(self).wf(),
        ensures
            final(self).wf(),
            final(self).free_color_count == old(self).free_color_count,
            final(self).fixed_colors@ == old(self).fixed_colors@,
            forall|i: int|
                0 <= i < old(self).fitness_targets@.len() && old(self).fitness_targets@[i].key() == target.key()
                    ==> final(self).fitness_targets@ == old(self).fitness_targets@.update(i, target),
            (forall|i: int|
                0 <= i < old(self).fitness_targets@.len() ==> old(self).fitness_targets@[i].key() != target.key())
                ==> final(self).fitness_targets@ == old(self).fitness_targets@.push(target),
    {
        let n = self.fitness_targets.len();
        let mut i: usize = 0;
        while i < n
            invariant
                n == self.fitness_targets@.len(),
                i <= n,
                self.wf(),
                self.fitness_targets@ == old(self).fitness_targets@,
                self.free_color_count == old(self).free_color_count,
                self.fixed_colors@ == old(self).fixed_colors@,
                forall|j: int| 0 <= j < i ==> self.fitness_targets@[j].key() != target.key(),
            decreases n - i,
        {
            let t = self.fitness_targets[i];
            if t.stat == target.stat && t.parameter == target.parameter {
                let ghost before = self.fitness_targets@;
                self.fitness_targets.set(i, target);
                assert forall|j: int| 0 <= j < n && before[j].key() == target.key() implies j == i by {
                    if j != i {
                        assert(before[i as int].key() == target.key());
                    }
                }
                return;
            }
            i = i + 1;
        }
        self.fitness_targets.push(target);
    }
}

impl ProblemDescription for ColorSchemeProblemDescription {
    type Data = FitnessData;

    open spec fn genotype_size(&self) -> nat {
        self.free_color_count as nat
    }

    open spec fn fitness_of(&self, data: FitnessData) -> i64 {
        fitness_of(self.fitness_targets@, data) as i64
    }

    /// The fitness of a palette summarized by `data`: the sum of the
    /// contributions of the targets, or `UNDEFINED_FITNESS` where a target
    /// reads a statistic of an empty sample.
    fn calculate_fitness(&self, data: &FitnessData) -> (r: i64) {
        let mut total: i64 = 0;
        let mut i: usize = 0;
        while i < self.fitness_targets.len()
            invariant
                i <= self.fitness_targets@.len(),
                targets_sum(self.fitness_targets@.subrange(0, i as int), *data) == Some(total as int),
            decreases self.fitness_targets@.len() - i,
        {
            assert(self.fitness_targets@.subrange(0, i as int + 1).drop_last() == self.fitness_targets@.subrange(0, i as int));
            match self.fitness_targets[i].calculate(data) {
                Some(c) => {
                    total = sat_i128(total as i128 + c as i128);
                },
                None => {
                    let ghost k = i as int + 1;
                    assert(targets_sum(self.fitness_targets@.subrange(0, k), *data) is None);
                    proof {
                        lemma_undefined_stays(self.fitness_targets@, *data, k, self.fitness_targets@.len() as int);
                    }
                    assert(self.fitness_targets@.subrange(0, self.fitness_targets@.len() as int) == self.fitness_targets@);
                    assert(targets_sum(self.fitness_targets@, *data) is None);
                    return UNDEFINED_FITNESS;
                },
            }
            i = i + 1;
        }
        assert(self.fitness_targets@.subrange(0, self.fitness_targets@.len() as int) == self.fitness_targets@);
        total
    }
}

proof fn lemma_undefined_stays(ts: Seq<Target>, data: FitnessData, k: int, m: int)
    requires
        0 <= k <= m <= ts.len(),
        targets_sum(ts.subrange(0, k), data) is None,
    ensures
        targets_sum(ts.subrange(0, m), data) is None,
    decreases m - k,
{
    if m > k {
        lemma_undefined_stays(ts, data, k, m - 1);
        assert(ts.subrange(0, m).drop_last() == ts.subrange(0, m - 1));
    }
}

} // verus!
