use vstd::prelude::*;
use rand::rngs::StdRng;
use rand::Rng;

verus! {

/// An individual of the population: what the engine breeds and selects.
///
/// The engine sees an individual through its genes, on which crossover and
/// mutation are stated, and through the fitness cached on it.
pub trait Genotype: Sized {
    /// What a mutation consumes besides the individual: noise drawn by the caller.
    type Noise;
    /// What breeding reads and writes; the cached fitness is not part of it.
    type Genes;

    spec fn genes(&self) -> Self::Genes;

    /// The fitness last cached on the individual.
    spec fn fitness(&self) -> i64;

    /// The genes suit a population whose individuals have `size` parts.
    spec fn genes_fit(genes: Self::Genes, size: nat) -> bool;

    /// The number of parts that a noise value shifts.
    spec fn noise_size(noise: Self::Noise) -> nat;

    spec fn is_crossover(child: Self::Genes, a: Self::Genes, b: Self::Genes) -> bool;

    spec fn is_mutation(child: Self::Genes, parent: Self::Genes, noise: Self::Noise) -> bool;

    /// A child of this individual and `other`, with fitness 0.
    fn crossover(&self, other: &Self) -> (r: Self)
        ensures
            Self::is_crossover(r.genes(), self.genes(), other.genes()),
            r.fitness() == 0,
            forall|size: nat|
                Self::genes_fit(self.genes(), size) && Self::genes_fit(other.genes(), size)
                    ==> #[trigger] Self::genes_fit(r.genes(), size),
    ;

    /// This individual moved by `noise`, with fitness 0.
    fn mutated(&self, noise: &Self::Noise) -> (r: Self)
        requires
            Self::genes_fit(self.genes(), Self::noise_size(*noise)),
        ensures
            Self::is_mutation(r.genes(), self.genes(), *noise),
            Self::genes_fit(r.genes(), Self::noise_size(*noise)),
            r.fitness() == 0,
    ;

    /// A copy that shares nothing with this individual.
    fn duplicate(&self) -> (r: Self)
        ensures
            r.genes() == self.genes(),
            r.fitness() == self.fitness(),
    ;

    fn get_fitness(&self) -> (r: i64)
        ensures
            r == self.fitness(),
    ;

    fn set_fitness(&mut self, fitness: i64)
        ensures
            final(self).fitness() == fitness,
            final(self).genes() == old(self).genes(),
    ;
}

/// What a population is optimized for.
pub trait ProblemDescription {
    /// What the fitness of one individual is computed from.
    type Data;

    /// The number of parts of each individual.
    spec fn genotype_size(&self) -> nat;

    spec fn fitness_of(&self, data: Self::Data) -> i64;

    fn calculate_fitness(&self, data: &Self::Data) -> (r: i64)
        ensures
            r == self.fitness_of(*data),
    ;
}

/// Number of individuals drawn for each tournament.
pub const TOURNAMENT_SIZE: usize = 4;

#[verifier::external_type_specification]
#[verifier::external_body]
pub struct ExStdRng(StdRng);

/// Relies on rand's `Rng::gen_range` on `StdRng`: the value drawn from
/// `0..n` lies in that range (the call panics only on an empty range).
#[verifier::external_body]
fn random_index(rng: &mut StdRng, n: usize) -> (r: usize)
    requires
        n > 0,
    ensures
        r < n,
{
    rng.gen_range(0..n)
}

/// The individual that wins a tournament among `draws`: the one with the
/// greatest fitness, the first drawn among equals.
pub open spec fn winner(fitness: Seq<i64>, draws: Seq<usize>) -> usize
    decreases draws.len(),
{
    if draws.len() <= 1 {
        draws[0]
    } else {
        let w = winner(fitness, draws.drop_last());
        if fitness[draws.last() as int] > fitness[w as int] { draws.last() } else { w }
    }
}

/// A tournament of one individual is won by that individual, so with a
/// tournament size of one the selection is the uniform draw itself.
pub proof fn tournament_of_one(fitness: Seq<i64>, d: usize)
    ensures
        winner(fitness, seq![d]) == d,
{
}

/// Every draw names an individual of a population of `n`.
pub open spec fn valid_draws(draws: Seq<usize>, n: int) -> bool {
    forall|i: int| 0 <= i < draws.len() ==> #[trigger] draws[i] < n
}

/// `order` lists the individuals from the fittest down; individuals of equal
/// fitness keep their order.
pub open spec fn is_ranking(order: Seq<usize>, fitness: Seq<i64>) -> bool {
    &&& order.len() == fitness.len()
    &&& valid_draws(order, fitness.len() as int)
    &&& forall|i: int, j: int| 0 <= i < j < order.len() ==> order[i] != order[j]
    &&& forall|i: int, j: int|
        0 <= i < j < order.len() ==> fitness[#[trigger] order[i] as int] >= fitness[#[trigger] order[j] as int]
    &&& forall|i: int, j: int|
        0 <= i < j < order.len() && fitness[order[i] as int] == fitness[order[j] as int] ==> #[trigger] order[i]
            < #[trigger] order[j]
}

pub proof fn lemma_winner_valid(fitness: Seq<i64>, draws: Seq<usize>)
    requires
        draws.len() >= 1,
        valid_draws(draws, fitness.len() as int),
    ensures
        winner(fitness, draws) < fitness.len(),
    decreases draws.len(),
{
    if draws.len() > 1 {
        lemma_winner_valid(fitness, draws.drop_last());
    }
}

/// The winner of the tournament among the individuals `draws`.
pub fn tournament_winner(fitness: &Vec<i64>, draws: &Vec<usize>) -> (r: usize)
    requires
        draws@.len() >= 1,
        valid_draws(draws@, fitness@.len() as int),
    ensures
        r == winner(fitness@, draws@),
        r < fitness@.len(),
{
    let mut best = draws[0];
    let mut i: usize = 1;
    while i < draws.len()
        invariant
            1 <= i <= draws@.len(),
            valid_draws(draws@, fitness@.len() as int),
            best == winner(fitness@, draws@.subrange(0, i as int)),
            best < fitness@.len(),
        decreases draws@.len() - i,
    {
        let d = draws[i];
        assert(draws@.subrange(0, i as int + 1).drop_last() == draws@.subrange(0, i as int));
        if fitness[d] > fitness[best] {
            best = d;
        }
        i = i + 1;
    }
    assert(draws@.subrange(0, draws@.len() as int) == draws@);
    best
}

/// A tournament of `size` individuals drawn uniformly, with replacement,
/// from the population whose fitness is `fitness`: the index of its winner.
pub fn tournament_selection(fitness: &Vec<i64>, size: usize, rng: &mut StdRng) -> (r: usize)
    requires
        fitness@.len() >= 1,
        size >= 1,
    ensures
        r < fitness@.len(),
        exists|draws: Seq<usize>|
            draws.len() == size && valid_draws(draws, fitness@.len() as int) && r == #[trigger] winner(
                fitness@,
                draws,
            ),
{
    let mut draws: Vec<usize> = Vec::new();
    let mut i: usize = 0;
    while i < size
        invariant
            i <= size,
            draws@.len() == i,
            fitness@.len() >= 1,
            valid_draws(draws@, fitness@.len() as int),
        decreases size - i,
    {
        let d = random_index(rng, fitness.len());
        draws.push(d);
        i = i + 1;
    }
    tournament_winner(fitness, &draws)
}

/// The individuals ranked from the fittest down, ties in their order.
pub fn rank_order(fitness: &Vec<i64>) -> (r: Vec<usize>)
    ensures
        is_ranking(r@, fitness@),
{
    let n = fitness.len();
    let mut out: Vec<usize> = Vec::new();
    let mut k: usize = 0;
    while k < n
        invariant
            n == fitness@.len(),
            k <= n,
            out@.len() == k,
            valid_draws(out@, k as int),
            forall|i: int, j: int| 0 <= i < j < out@.len() ==> out@[i] != out@[j],
            forall|i: int, j: int|
                0 <= i < j < out@.len() ==> fitness@[#[trigger] out@[i] as int] >= fitness@[#[trigger] out@[j] as int],
            forall|i: int, j: int|
                0 <= i < j < out@.len() && fitness@[out@[i] as int] == fitness@[out@[j] as int] ==> #[trigger] out@[i]
                    < #[trigger] out@[j],
        decreases n - k,
    {
        let fk = fitness[k];
        let mut j: usize = 0;
        while j < out.len() && fitness[out[j]] >= fk
            invariant
                j <= out@.len(),
                valid_draws(out@, k as int),
                k < n == fitness@.len(),
                fk == fitness@[k as int],
                forall|p: int| 0 <= p < j ==> fitness@[#[trigger] out@[p] as int] >= fk,
            decreases out@.len() - j,
        {
            j = j + 1;
        }
        let ghost before = out@;
        out.insert(j, k);
        proof {
            assert(out@ == before.insert(j as int, k));
            assert forall|i: int| 0 <= i < out@.len() implies #[trigger] out@[i] < k + 1 by {
                if i < j {
                    assert(out@[i] == before[i]);
                } else if i > j {
                    assert(out@[i] == before[i - 1]);
                }
            }
            if j < before.len() {
                assert(fitness@[before[j as int] as int] < fk);
            }
            assert forall|p: int, q: int| 0 <= p < q < out@.len() implies fitness@[#[trigger] out@[p] as int]
                >= fitness@[#[trigger] out@[q] as int] by {
                if p < j && q > j {
                    assert(fitness@[before[p] as int] >= fk);
                    assert(fitness@[before[j as int] as int] >= fitness@[before[q - 1] as int] || q - 1 == j);
                } else if p == j && q > j {
                    assert(fitness@[before[j as int] as int] >= fitness@[before[q - 1] as int] || q - 1 == j);
                } else if p < j && q == j {
                    assert(fitness@[before[p] as int] >= fk);
                }
            }
            assert forall|p: int, q: int|
                0 <= p < q < out@.len() && fitness@[out@[p] as int] == fitness@[out@[q] as int] implies #[trigger] out@[p]
                    < #[trigger] out@[q] by {
                if p == j && q > j {
                    assert(fitness@[before[j as int] as int] >= fitness@[before[q - 1] as int] || q - 1 == j);
                    assert(fitness@[before[q - 1] as int] < fk);
                } else if p < j && q == j {
                    assert(before[p] < k);
                }
            }
            assert forall|p: int, q: int| 0 <= p < q < out@.len() implies out@[p] != out@[q] by {
                if p == j {
                    assert(out@[q] == before[q - 1]);
                } else if q == j {
                    assert(out@[p] == before[p]);
                }
            }
        }
        k = k + 1;
    }
    out
}

/// Number of the children of one generation that are mutated: `percent`
/// percent of a population of `n`, rounded up.
pub open spec fn mutation_count_of(percent: int, n: int) -> int {
    (percent * n + 99) / 100
}

/// `child` was bred from `a` and `b`: a crossover of the two, moved by
/// `noise` where `mutate` holds.
pub open spec fn bred_from<G: Genotype>(child: G::Genes, a: G::Genes, b: G::Genes, noise: G::Noise, mutate: bool) -> bool {
    if mutate {
        exists|c: G::Genes| G::is_crossover(c, a, b) && #[trigger] G::is_mutation(child, c, noise)
    } else {
        G::is_crossover(child, a, b)
    }
}

/// A population of a fixed size, evolved generation by generation.
pub struct Population<G, P> {
    pub genotypes: Vec<G>,
    /// Percentage of the children of each generation that are mutated.
    pub mutation_index: u32,
    /// Number of the fittest individuals that pass unchanged into the next generation.
    pub elitism: usize,
    pub problem_description: P,
}

impl<G: Genotype, P: ProblemDescription> Population<G, P> {
    pub open spec fn wf(&self) -> bool {
        &&& self.genotypes@.len() >= 1
        &&& self.elitism <= self.genotypes@.len()
        &&& self.mutation_index <= 100
        &&& forall|i: int|
            0 <= i < self.genotypes@.len() ==> G::genes_fit(
                (#[trigger] self.genotypes@[i]).genes(),
                self.problem_description.genotype_size(),
            )
    }

    /// A population of the given individuals; every child is mutated and the
    /// single fittest individual survives each generation.
    pub fn new(genotypes: Vec<G>, problem_description: P) -> (r: Population<G, P>)
        ensures
            r.genotypes@ == genotypes@,
            r.problem_description == problem_description,
            r.mutation_index == 100,
            r.elitism == 1,
    {
        Population { genotypes, mutation_index: 100, elitism: 1, problem_description }
    }

    /// One generation: `fitness[i]` is the fitness of individual `i`. The
    /// individuals are ranked from the fittest down; the `elitism` first pass
    /// unchanged (copied, fitness cached); every other slot gets the child of
    /// two parents, each the winner of a tournament of `TOURNAMENT_SIZE`
    /// individuals drawn from the ranked generation, crossed over and, for
    /// the first `mutation_count_of(mutation_index, n)` children, moved by
    /// the child's own entry of `noise`. Returns the fittest individual of
    /// the generation that was ranked.
    pub fn next_generation(&mut self, fitness: &Vec<i64>, noise: &Vec<G::Noise>, rng: &mut StdRng) -> (best: G)
        requires
            old(self).wf(),
            fitness@.len() == old(self).genotypes@.len(),
            noise@.len() == old(self).genotypes@.len() - old(self).elitism,
            forall|i: int| 0 <= i < noise@.len() ==> G::noise_size(#[trigger] noise@[i]) == old(self).problem_description.genotype_size(),
        ensures
            final(self).wf(),
            final(self).genotypes@.len() == old(self).genotypes@.len(),
            final(self).elitism == old(self).elitism,
            final(self).mutation_index == old(self).mutation_index,
            final(self).problem_description == old(self).problem_description,
            exists|order: Seq<usize>| #[trigger] is_ranking(order, fitness@) && {
                &&& best.genes() == old(self).genotypes@[order[0] as int].genes()
                &&& best.fitness() == fitness@[order[0] as int]
                &&& forall|i: int| 0 <= i < old(self).elitism ==> {
                    &&& (#[trigger] final(self).genotypes@[i]).genes()
                        == old(self).genotypes@[order[i] as int].genes()
                    &&& final(self).genotypes@[i].fitness() == fitness@[order[i] as int]
                }
            },
            forall|i: int| old(self).elitism <= i < old(self).genotypes@.len() ==> exists|p: int, q: int|
                0 <= p < old(self).genotypes@.len() && 0 <= q < old(self).genotypes@.len() && bred_from::<G>(
                    (#[trigger] final(self).genotypes@[i]).genes(),
                    old(self).genotypes@[p].genes(),
                    old(self).genotypes@[q].genes(),
                    noise@[i - old(self).elitism],
                    i - old(self).elitism < mutation_count_of(old(self).mutation_index as int, old(self).genotypes@.len() as int),
                ),
    {
        let n = self.genotypes.len();
        let elitism = self.elitism;
        let ghost m = self.problem_description.genotype_size();
        let ghost old_g = self.genotypes@;
        let order = rank_order(fitness);
        let mut ranked: Vec<G> = Vec::new();
        let mut ranked_fit: Vec<i64> = Vec::new();
        let mut i: usize = 0;
        while i < n
            invariant
                n == old_g.len() == fitness@.len(),
                self.genotypes@ == old_g,
                self.wf(),
                m == self.problem_description.genotype_size(),
                is_ranking(order@, fitness@),
                i <= n,
                ranked@.len() == i,
                ranked_fit@.len() == i,
                forall|j: int| 0 <= j < i ==> {
                    &&& (#[trigger] ranked@[j]).genes() == old_g[order@[j] as int].genes()
                    &&& ranked@[j].fitness() == fitness@[order@[j] as int]
                    &&& ranked_fit@[j] == fitness@[order@[j] as int]
                },
            decreases n - i,
        {
            let k = order[i];
            let mut g = self.genotypes[k].duplicate();
            g.set_fitness(fitness[k]);
            let ghost before = ranked@;
            ranked.push(g);
            ranked_fit.push(fitness[k]);
            assert(ranked@[i as int].genes() == old_g[order@[i as int] as int].genes());
            assert(forall|j: int| 0 <= j < i ==> ranked@[j] == before[j]);
            i = i + 1;
        }
        let best = ranked[0].duplicate();
        let pct = self.mutation_index as u128;
        let nn = n as u128;
        assert(pct * nn <= 100 * 0x1_0000_0000_0000_0000) by (nonlinear_arith)
            requires pct <= 100, nn <= 0x1_0000_0000_0000_0000;
        let count: u128 = (pct * nn + 99) / 100;
        let mut next: Vec<G> = Vec::new();
        let mut i: usize = 0;
        while i < elitism
            invariant
                elitism <= n == ranked@.len(),
                i <= elitism,
                next@.len() == i,
                forall|j: int| 0 <= j < i ==> {
                    &&& (#[trigger] next@[j]).genes() == ranked@[j].genes()
                    &&& next@[j].fitness() == ranked@[j].fitness()
                },
            decreases elitism - i,
        {
            next.push(ranked[i].duplicate());
            i = i + 1;
        }
        let mut c: usize = 0;
        while c < n - elitism
            invariant
                elitism <= n == ranked@.len() == ranked_fit@.len() == old_g.len(),
                n >= 1,
                c <= n - elitism,
                next@.len() == elitism + c,
                noise@.len() == n - elitism,
                forall|j: int| 0 <= j < noise@.len() ==> G::noise_size(#[trigger] noise@[j]) == m,
                count == mutation_count_of(self.mutation_index as int, n as int),
                forall|j: int| 0 <= j < n ==> {
                    &&& G::genes_fit((#[trigger] ranked@[j]).genes(), m)
                    &&& exists|p: int| 0 <= p < n && ranked@[j].genes() == #[trigger] old_g[p].genes()
                },
                forall|j: int| 0 <= j < elitism ==> {
                    &&& (#[trigger] next@[j]).genes() == ranked@[j].genes()
                    &&& next@[j].fitness() == ranked@[j].fitness()
                },
                forall|j: int| 0 <= j < next@.len() ==> G::genes_fit((#[trigger] next@[j]).genes(), m),
                forall|j: int| elitism <= j < next@.len() ==> exists|p: int, q: int|
                    0 <= p < n && 0 <= q < n && bred_from::<G>(
                        (#[trigger] next@[j]).genes(),
                        old_g[p].genes(),
                        old_g[q].genes(),
                        noise@[j - elitism],
                        j - elitism < count,
                    ),
            decreases n - elitism - c,
        {
            let a = tournament_selection(&ranked_fit, TOURNAMENT_SIZE, rng);
            let b = tournament_selection(&ranked_fit, TOURNAMENT_SIZE, rng);
            let cross = ranked[a].crossover(&ranked[b]);
            assert(G::genes_fit(cross.genes(), m));
            let ghost pa = choose|p: int| 0 <= p < n && ranked@[a as int].genes() == #[trigger] old_g[p].genes();
            let ghost pb = choose|p: int| 0 <= p < n && ranked@[b as int].genes() == #[trigger] old_g[p].genes();
            let child = if (c as u128) < count {
                let mutated = cross.mutated(&noise[c]);
                assert(bred_from::<G>(mutated.genes(), old_g[pa].genes(), old_g[pb].genes(), noise@[c as int], true));
                mutated
            } else {
                cross
            };
            next.push(child);
            proof {
                let j = elitism + c;
                assert(next@[j as int] == child);
                assert(bred_from::<G>(next@[j as int].genes(), old_g[pa].genes(), old_g[pb].genes(), noise@[c as int], c < count));
            }
            c = c + 1;
        }
        self.genotypes = next;
        best
    }
}

} // verus!
