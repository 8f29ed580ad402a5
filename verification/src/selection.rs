//! The selection engine: the crossover operator and the strategies that
//! turn one generation of candidates into the next.

use crate::board::beats;
use crate::board::Board;
use crate::chromosome::lemma_reordered_genes;
use crate::chromosome::shuffle_genes;
use crate::chromosome::valid_genes;
use crate::chromosome::Chromosome;
use crate::chromosome::Gene;
use rand::Rng;
use rayon::prelude::IntoParallelIterator;
use rayon::prelude::IntoParallelRefIterator;
use rayon::prelude::ParallelIterator;
use rayon::slice::ParallelSliceMut;
use vstd::prelude::*;
use vstd::set_lib::lemma_int_range;
use vstd::set_lib::lemma_len_subset;
use vstd::set_lib::lemma_len_union;
use vstd::set_lib::lemma_map_size_bound;
use vstd::set_lib::set_int_range;

verus! {

/// An ordered collection of candidates, evolved as one unit per round.
pub type Generation = Vec<Chromosome>;

/// The policy that governs which individuals survive a generation
/// transition and how offspring are produced.
#[derive(Debug, Clone, Copy, Hash, PartialEq, Eq, Structural)]
pub enum SelectionStrategy {
    AdamAndEve,
    KillTheHalf,
    Tournament,
}

/// Probabilities are held in fixed point: a probability is
/// `raw / PROBABILITY_SCALE`, with `raw` between 0 and the scale.
pub const PROBABILITY_SCALE: u64 = 1_000_000_000;

/// A probability in the closed interval [0, 1].
#[derive(Debug, Clone, Copy, PartialEq, Eq, Structural)]
pub struct Probability {
    pub raw: u64,
}

/// The rejection of a value outside [0, 1] as a probability.
#[derive(Debug, Clone, Copy, PartialEq, Eq, Structural)]
pub struct ProbabilityOutOfRange;

impl Probability {
    /// The value lies within [0, 1].
    pub open spec fn wf(&self) -> bool {
        self.raw <= PROBABILITY_SCALE
    }

    /// Accepts `raw / PROBABILITY_SCALE` as a probability; construction
    /// fails exactly when that value lies above 1.
    pub fn new(raw: u64) -> (r: Result<Self, ProbabilityOutOfRange>)
        ensures
            r == if raw <= PROBABILITY_SCALE {
                Ok::<Probability, ProbabilityOutOfRange>(Probability { raw })
            } else {
                Err::<Probability, ProbabilityOutOfRange>(ProbabilityOutOfRange)
            },
            r is Ok ==> r.unwrap().wf(),
    {
        if raw <= PROBABILITY_SCALE {
            Ok(Probability { raw })
        } else {
            Err(ProbabilityOutOfRange)
        }
    }
}

/// Relies on rand's `Rng::gen_range` on the thread-local generator, over
/// the half-open range below `bound`: the draw always lies in that range.
/// `gen_range` panics on an empty range, which the `requires` rules out.
/// Which value comes back is random.
#[verifier::external_body]
fn random_below(bound: usize) -> (r: usize)
    requires
        1 <= bound,
    ensures
        r < bound,
{
    rand::thread_rng().gen_range(0..bound)
}

/// Relies on rand's `Rng::gen_range` on the thread-local generator, over the
/// half-open range below `PROBABILITY_SCALE`: the draw always lies in that
/// range.  Which value comes back is random.
#[verifier::external_body]
fn random_scaled() -> (r: u64)
    ensures
        r < PROBABILITY_SCALE,
{
    rand::thread_rng().gen_range(0..PROBABILITY_SCALE)
}

/// A fresh uniformly random probability, strictly below 1.
pub fn random_probability() -> (r: Probability)
    ensures
        r.wf(),
        r.raw < PROBABILITY_SCALE,
{
    Probability { raw: random_scaled() }
}

/// Every candidate is a permutation, and all candidates have the same
/// length.
pub open spec fn wf_population(s: Seq<Chromosome>) -> bool {
    &&& forall|k: int| 0 <= k < s.len() ==> valid_genes(#[trigger] s[k].genes@)
    &&& forall|k: int| 0 <= k < s.len() ==> (#[trigger] s[k].genes@).len() == s[0].genes@.len()
}

/// All candidates carry identical genes.
pub open spec fn uniform_population(s: Seq<Chromosome>) -> bool {
    forall|k: int| 0 <= k < s.len() ==> (#[trigger] s[k].genes@) == s[0].genes@
}

/// Every member of `s` carries the genes that `c1` and `c2` agree on: it
/// could have been bred from that pair without mutation.
pub open spec fn preserves_agreements(s: Seq<Chromosome>, c1: Chromosome, c2: Chromosome) -> bool {
    forall|k: int, i: int|
        #![trigger s[k].genes@[i]]
        0 <= k < s.len() && 0 <= i < c1.genes@.len() && c1.genes@[i] == c2.genes@[i]
            ==> s[k].genes@[i] == c1.genes@[i]
}

/// One kill-the-half round laid out in full.  `sorted` is a reordering of
/// the input ascending by beaten-queen count, so descending by fitness;
/// its two fittest members are the parents; the rest of its top half
/// survives; everything below is culled, and the freed slots are refilled
/// with the brood, bred from the parents alone, which at zero mutation
/// probability carries every gene the parents agree on.
pub open spec fn kill_the_half_witness(
    input: Seq<Chromosome>,
    output: Seq<Chromosome>,
    no_mutation: bool,
    sorted: Seq<Chromosome>,
    brood: Seq<Chromosome>,
) -> bool {
    let p = input.len() as int;
    let keep = if p / 2 >= 2 {
        p / 2 - 2
    } else {
        0
    };
    &&& sorted.len() == p
    &&& sorted.to_multiset() == input.to_multiset()
    &&& (forall|i: int, j: int|
        #![trigger sorted[i], sorted[j]]
        0 <= i < j < p ==> beats(sorted[i].genes@) <= beats(sorted[j].genes@))
    &&& brood.len() == p - 2 - keep
    &&& output == sorted.subrange(2, 2 + keep) + brood + seq![sorted[0], sorted[1]]
    &&& (no_mutation ==> preserves_agreements(brood, sorted[0], sorted[1]))
}

/// The output of a kill-the-half round has the laid-out shape for some
/// fitness-sorted reordering of the input and some brood.
pub open spec fn kill_the_half_shape(
    input: Seq<Chromosome>,
    output: Seq<Chromosome>,
    no_mutation: bool,
) -> bool {
    exists|sorted: Seq<Chromosome>, brood: Seq<Chromosome>|
        kill_the_half_witness(input, output, no_mutation, sorted, brood)
}

/// `c1` and `c2` are two occurrences in `s` (one individual counted at most
/// as often as it appears) that leave no more queens beaten - that is, have
/// no lower fitness - than every other member.
pub open spec fn top_two(s: Seq<Chromosome>, c1: Chromosome, c2: Chromosome) -> bool {
    &&& s.to_multiset().contains(c1)
    &&& s.to_multiset().remove(c1).contains(c2)
    &&& forall|x: Chromosome| #[trigger]
        s.to_multiset().remove(c1).remove(c2).contains(x) ==> beats(c1.genes@) <= beats(x.genes@)
            && beats(c2.genes@) <= beats(x.genes@)
}

/// Members of a sequence are members of any sequence with the same
/// multiset.
proof fn lemma_same_multiset_members(a: Seq<Chromosome>, b: Seq<Chromosome>)
    requires
        a.to_multiset() == b.to_multiset(),
    ensures
        forall|k: int| 0 <= k < b.len() ==> a.contains(#[trigger] b[k]),
{
    broadcast use vstd::seq_lib::group_to_multiset_ensures;

    assert forall|k: int| 0 <= k < b.len() implies a.contains(b[k]) by {
        assert(b.contains(b[k]));
        assert(b.to_multiset().count(b[k]) > 0);
        assert(a.to_multiset().count(b[k]) > 0);
    }
}

/// The evaluator key used for ranking: how many queens a candidate leaves
/// beaten.  Fitness is `1 / (key + 1)`, so a lower key means a fitter
/// candidate.
fn chromosome_beats(chromosome: &Chromosome) -> (r: u16)
    requires
        chromosome.genes@.len() <= u16::MAX as int,
    ensures
        r == beats(chromosome.genes@),
{
    Board::from(chromosome).beats_count()
}

/// Relies on rayon's `par_iter().map(..).collect::<Vec<_>>()`: the
/// collected vector has one element per input element, in order, each
/// produced by one call of the closure, which only calls
/// [`chromosome_beats`].  The clauses restate that function's contract for
/// every element.
#[verifier::external_body]
fn par_beats_keys(generation: &Generation) -> (r: Vec<u16>)
    requires
        forall|k: int|
            0 <= k < generation@.len() ==> (#[trigger] generation@[k].genes@).len() <= u16::MAX
                as int,
    ensures
        r@.len() == generation@.len(),
        forall|k: int| 0 <= k < r@.len() ==> r@[k] == beats(generation@[k].genes@),
{
    generation.par_iter().map(|chromosome| chromosome_beats(chromosome)).collect()
}

/// Removes and returns a fittest individual: one that leaves no more
/// queens beaten than any that remain.
pub fn take_max(current_generation: &mut Generation) -> (best: Chromosome)
    requires
        old(current_generation)@.len() >= 1,
        forall|k: int|
            0 <= k < old(current_generation)@.len() ==> (#[trigger] old(
                current_generation,
            )@[k].genes@).len() <= u16::MAX as int,
    ensures
        final(current_generation)@.len() == old(current_generation)@.len() - 1,
        old(current_generation)@.to_multiset() == final(current_generation)@.to_multiset().insert(
            best,
        ),
        old(current_generation)@.contains(best),
        forall|k: int|
            0 <= k < final(current_generation)@.len() ==> final(current_generation)@.contains(
                #[trigger] final(current_generation)@[k],
            ) && old(current_generation)@.contains(final(current_generation)@[k]),
        forall|k: int|
            0 <= k < final(current_generation)@.len() ==> beats(best.genes@) <= beats(
                (#[trigger] final(current_generation)@[k]).genes@,
            ),
{
    broadcast use vstd::seq_lib::group_to_multiset_ensures;

    let keys = par_beats_keys(current_generation);
    let n = current_generation.len();
    let mut best_i: usize = 0;
    for k in 1..n
        invariant
            n == current_generation@.len(),
            n == keys@.len(),
            n >= 1,
            best_i < k,
            forall|j: int| 0 <= j < k ==> keys@[best_i as int] <= #[trigger] keys@[j],
            forall|j: int| 0 <= j < keys@.len() ==> keys@[j] == beats(current_generation@[j].genes@),
    {
        if keys[k] < keys[best_i] {
            best_i = k;
        }
    }
    let ghost before = current_generation@;
    let best = current_generation.remove(best_i);
    proof {
        before.remove_ensures(best_i as int);
        assert(before.contains(best));
        assert(current_generation@.to_multiset() == before.to_multiset().remove(best));
        assert(before.to_multiset().count(best) > 0);
        assert(before.to_multiset() =~= current_generation@.to_multiset().insert(best));
        assert(best == before[best_i as int]);
        assert(keys@[best_i as int] == beats(best.genes@));
        assert forall|k: int|
            0 <= k < current_generation@.len() implies before.contains(
            #[trigger] current_generation@[k],
        ) && beats(best.genes@) <= beats(current_generation@[k].genes@) by {
            if k < best_i {
                assert(current_generation@[k] == before[k]);
                assert(before.contains(before[k]));
                assert(keys@[k] == beats(before[k].genes@));
                assert(keys@[best_i as int] <= keys@[k]);
            } else {
                assert(current_generation@[k] == before[k + 1]);
                assert(before.contains(before[k + 1]));
                assert(keys@[k + 1] == beats(before[k + 1].genes@));
                assert(keys@[best_i as int] <= keys@[k + 1]);
            }
        }
    }
    best
}

/// Both parents place gene `v` on some row they agree on.
pub open spec fn agreed_value(s1: Seq<Gene>, s2: Seq<Gene>, v: Gene) -> bool {
    exists|k: int| 0 <= k < s1.len() && s1[k] == s2[k] && s1[k] == v
}

/// How many of the first `m` rows the two parents disagree on.
pub open spec fn disagreements(s1: Seq<Gene>, s2: Seq<Gene>, m: int) -> int
    decreases m,
{
    if m <= 0 {
        0
    } else {
        disagreements(s1, s2, m - 1) + if s1[m - 1] != s2[m - 1] {
            1int
        } else {
            0int
        }
    }
}

proof fn lemma_disagreements_bounds(s1: Seq<Gene>, s2: Seq<Gene>, a: int, b: int)
    requires
        0 <= a <= b,
    ensures
        disagreements(s1, s2, a) <= disagreements(s1, s2, b),
        disagreements(s1, s2, b) - disagreements(s1, s2, a) <= b - a,
        0 <= disagreements(s1, s2, a),
    decreases b,
{
    if a < b {
        lemma_disagreements_bounds(s1, s2, a, b - 1);
    } else if a == b && a > 0 {
        lemma_disagreements_bounds(s1, s2, a - 1, a - 1);
    }
}

proof fn lemma_disagreements_strict(s1: Seq<Gene>, s2: Seq<Gene>, k: int, m: int)
    requires
        0 <= k < m,
        s1[k] != s2[k],
    ensures
        disagreements(s1, s2, k) < disagreements(s1, s2, m),
{
    assert(disagreements(s1, s2, k + 1) == disagreements(s1, s2, k) + 1);
    lemma_disagreements_bounds(s1, s2, k + 1, m);
}

proof fn lemma_agreement_count(s1: Seq<Gene>, s2: Seq<Gene>, m: int)
    requires
        0 <= m <= s1.len(),
        s1.len() == s2.len(),
    ensures
        Set::new(|k: int| 0 <= k < m && s1[k] == s2[k]).finite(),
        Set::new(|k: int| 0 <= k < m && s1[k] == s2[k]).len() == m - disagreements(s1, s2, m),
    decreases m,
{
    broadcast use vstd::set::group_set_axioms;

    let cur = Set::new(|k: int| 0 <= k < m && s1[k] == s2[k]);
    if m == 0 {
        assert(cur =~= Set::<int>::empty());
    } else {
        lemma_agreement_count(s1, s2, m - 1);
        let prev = Set::new(|k: int| 0 <= k < m - 1 && s1[k] == s2[k]);
        lemma_disagreements_bounds(s1, s2, m - 1, m);
        if s1[m - 1] == s2[m - 1] {
            assert(!prev.contains(m - 1));
            assert(cur =~= prev.insert(m - 1));
        } else {
            assert(cur =~= prev);
        }
    }
}

/// There are at least as many genes that the parents agree on nowhere as
/// there are rows the parents disagree on: the leftover genes suffice to
/// fill every disagreement row.
proof fn lemma_rest_capacity(s1: Seq<Gene>, s2: Seq<Gene>, rest: Seq<Gene>)
    requires
        s1.len() == s2.len(),
        s1.len() <= 65536,
        forall|i: int| 0 <= i < s1.len() ==> (s1[i] as int) < s1.len(),
        rest.no_duplicates(),
        forall|m: int| 0 <= m < rest.len() ==> (rest[m] as int) < s1.len(),
        forall|v: Gene| (v as int) < s1.len() ==> (#[trigger] rest.contains(v) <==> !agreed_value(
            s1,
            s2,
            v,
        )),
    ensures
        disagreements(s1, s2, s1.len() as int) <= rest.len(),
{
    broadcast use vstd::set::group_set_axioms;

    let n = s1.len() as int;
    let pos = Set::new(|k: int| 0 <= k < n && s1[k] == s2[k]);
    let vals = Set::new(|v: int| 0 <= v < n && agreed_value(s1, s2, v as u16));
    let restvals = Set::new(|v: int| 0 <= v < n && !agreed_value(s1, s2, v as u16));
    lemma_agreement_count(s1, s2, n);

    // `vals` is the image of the agreement rows under the shared gene.
    let f = |k: int| s1[k] as int;
    assert(pos.map(f) =~= vals) by {
        assert forall|v: int| vals.contains(v) implies pos.map(f).contains(v) by {
            let k = choose|k: int| 0 <= k < s1.len() && s1[k] == s2[k] && s1[k] == v as u16;
            assert(pos.contains(k));
            assert(f(k) == v);
        }
        assert forall|v: int| pos.map(f).contains(v) implies vals.contains(v) by {
            let k = choose|k: int| pos.contains(k) && f(k) == v;
            assert(agreed_value(s1, s2, s1[k]));
        }
    }
    lemma_map_size_bound(pos, vals, f);

    // Every gene below `n` is either an agreed gene or a leftover gene.
    lemma_int_range(0, n);
    lemma_len_subset(restvals, set_int_range(0, n));
    assert(set_int_range(0, n) =~= restvals.union(vals));
    lemma_len_union(restvals, vals);

    // The leftover genes listed in `rest` are exactly `restvals`.
    let ri = rest.map_values(|g: Gene| g as int);
    assert(ri.no_duplicates()) by {
        assert forall|i: int, j: int|
            0 <= i < ri.len() && 0 <= j < ri.len() && i != j implies ri[i] != ri[j] by {
            assert(rest[i] != rest[j]);
        }
    }
    ri.unique_seq_to_set();
    assert(ri.to_set() =~= restvals) by {
        assert forall|v: int| ri.to_set().contains(v) implies restvals.contains(v) by {
            let m = choose|m: int| 0 <= m < ri.len() && ri[m] == v;
            assert(rest.contains(rest[m]));
        }
        assert forall|v: int| restvals.contains(v) implies ri.to_set().contains(v) by {
            assert(rest.contains(v as u16));
            let m = choose|m: int| 0 <= m < rest.len() && rest[m] == v as u16;
            assert(ri[m] == v);
            assert(ri.contains(v));
        }
    }
    assert(rest.len() == restvals.len());
}

/// Whether the parents agree on gene `gene` in some row: a linear scan.
fn gene_is_agreed(parent1: &Chromosome, parent2: &Chromosome, gene: Gene) -> (r: bool)
    requires
        parent1.genes@.len() == parent2.genes@.len(),
    ensures
        r == agreed_value(parent1.genes@, parent2.genes@, gene),
{
    let n = parent1.genes.len();
    for k in 0..n
        invariant
            n == parent1.genes@.len(),
            n == parent2.genes@.len(),
            forall|m: int|
                0 <= m < k ==> !(parent1.genes@[m] == parent2.genes@[m] && parent1.genes@[m]
                    == gene),
    {
        let g1 = parent1.genes[k];
        if g1 == parent2.genes[k] && g1 == gene {
            return true;
        }
    }
    false
}

/// One offspring bred from two parents.
///
/// With the given probability the offspring is instead a brand-new random
/// chromosome (a catastrophic mutation that discards all inherited
/// structure).  Otherwise every row the parents agree on keeps the shared
/// gene, and the leftover genes - the columns used on no agreement row -
/// are shuffled uniformly at random onto the remaining rows.  Either way
/// the offspring is a permutation of the same columns as its parents.
pub fn crossover(parent1: &Chromosome, parent2: &Chromosome, mutation_probability: Probability) -> (child:
    Chromosome)
    requires
        parent1.genes@.len() == parent2.genes@.len(),
        parent1.genes@.len() <= u16::MAX as int,
        valid_genes(parent1.genes@),
        valid_genes(parent2.genes@),
    ensures
        child.genes@.len() == parent1.genes@.len(),
        valid_genes(child.genes@),
        mutation_probability.raw == 0 ==> (forall|i: int|
            0 <= i < parent1.genes@.len() && parent1.genes@[i] == parent2.genes@[i]
                ==> child.genes@[i] == parent1.genes@[i]),
{
    let ghost s1 = parent1.genes@;
    let ghost s2 = parent2.genes@;
    let gene_digit_base = parent1.genes.len();

    // Mutation: in this case it is a new completely random chromosome.
    if random_scaled() < mutation_probability.raw {
        return Chromosome::new(gene_digit_base as u16);
    }

    let n = gene_digit_base;
    let base16: u16 = n as u16;

    // The genes the parents agree on nowhere, in ascending order.
    let mut rest_of_genes: Vec<Gene> = Vec::new();
    for g in 0..base16
        invariant
            s1 == parent1.genes@,
            s2 == parent2.genes@,
            n == s1.len(),
            s2.len() == s1.len(),
            n <= 65535,
            base16 as int == n as int,
            forall|m: int|
                0 <= m < rest_of_genes@.len() ==> (rest_of_genes@[m] as int) < g as int,
            forall|m1: int, m2: int|
                0 <= m1 < m2 < rest_of_genes@.len() ==> rest_of_genes@[m1] < rest_of_genes@[m2],
            forall|v: Gene|
                (v as int) < g as int ==> (#[trigger] rest_of_genes@.contains(v)
                    <==> !agreed_value(s1, s2, v)),
    {
        let ghost before = rest_of_genes@;
        if !gene_is_agreed(parent1, parent2, g) {
            rest_of_genes.push(g);
        }
        proof {
            assert forall|v: Gene| (v as int) < g as int + 1 implies (
            #[trigger] rest_of_genes@.contains(v) <==> !agreed_value(s1, s2, v)) by {
                if rest_of_genes@.contains(v) {
                    let m = choose|m: int|
                        0 <= m < rest_of_genes@.len() && rest_of_genes@[m] == v;
                    if m < before.len() {
                        assert(before.contains(v));
                    }
                }
                if v < g {
                    if before.contains(v) {
                        let m = choose|m: int| 0 <= m < before.len() && before[m] == v;
                        assert(rest_of_genes@[m] == v);
                        assert(rest_of_genes@.contains(v));
                    }
                } else {
                    if rest_of_genes@.len() > before.len() {
                        assert(rest_of_genes@[before.len() as int] == g);
                        assert(rest_of_genes@.contains(g));
                    }
                }
            }
        }
    }

    // Shuffling the leftovers keeps them distinct, in range, and complete.
    let ghost ascending_rest = rest_of_genes@;
    proof {
        assert(ascending_rest.no_duplicates());
    }
    shuffle_genes(&mut rest_of_genes);
    proof {
        lemma_reordered_genes(ascending_rest, rest_of_genes@);
        assert forall|m: int| 0 <= m < rest_of_genes@.len() implies (rest_of_genes@[m] as int)
            < n as int by {
            assert(rest_of_genes@.contains(rest_of_genes@[m]));
            assert(ascending_rest.contains(rest_of_genes@[m]));
            let m0 = choose|m0: int|
                0 <= m0 < ascending_rest.len() && ascending_rest[m0] == rest_of_genes@[m];
            assert((ascending_rest[m0] as int) < n as int);
        }
        lemma_rest_capacity(s1, s2, rest_of_genes@);
    }

    // Agreement rows copy the shared gene; disagreement rows take the
    // shuffled leftovers in order.
    let mut child_genes: Vec<Gene> = Vec::new();
    let mut next_rest: usize = 0;
    for i in 0..n
        invariant
            s1 == parent1.genes@,
            s2 == parent2.genes@,
            n == s1.len(),
            s2.len() == s1.len(),
            n <= 65535,
            valid_genes(s1),
            rest_of_genes@.no_duplicates(),
            forall|m: int| 0 <= m < rest_of_genes@.len() ==> (rest_of_genes@[m] as int) < n as int,
            forall|v: Gene|
                (v as int) < n as int ==> (#[trigger] rest_of_genes@.contains(v) <==> !agreed_value(
                    s1,
                    s2,
                    v,
                )),
            disagreements(s1, s2, n as int) <= rest_of_genes@.len(),
            child_genes@.len() == i as int,
            next_rest == disagreements(s1, s2, i as int),
            forall|k: int| 0 <= k < i && s1[k] == s2[k] ==> child_genes@[k] == s1[k],
            forall|k: int|
                0 <= k < i && s1[k] != s2[k] ==> child_genes@[k] == rest_of_genes@[disagreements(
                    s1,
                    s2,
                    k,
                )],
    {
        let g1 = parent1.genes[i];
        if g1 == parent2.genes[i] {
            child_genes.push(g1);
        } else {
            proof {
                lemma_disagreements_bounds(s1, s2, 0, i as int);
                lemma_disagreements_strict(s1, s2, i as int, n as int);
            }
            child_genes.push(rest_of_genes[next_rest]);
            next_rest = next_rest + 1;
        }
        proof {
            assert(disagreements(s1, s2, i as int + 1) == disagreements(s1, s2, i as int) + if s1[i as int]
                != s2[i as int] {
                1int
            } else {
                0int
            });
        }
    }

    proof {
        assert forall|k1: int, k2: int|
            0 <= k1 < k2 < n implies child_genes@[k1] != child_genes@[k2] by {
            let a1 = s1[k1] == s2[k1];
            let a2 = s1[k2] == s2[k2];
            if !a1 {
                lemma_disagreements_bounds(s1, s2, 0, k1);
                lemma_disagreements_strict(s1, s2, k1, n as int);
            }
            if !a2 {
                lemma_disagreements_bounds(s1, s2, 0, k2);
                lemma_disagreements_strict(s1, s2, k2, n as int);
            }
            if a1 && a2 {
                assert(s1[k1] != s1[k2]);
            } else if a1 && !a2 {
                assert(agreed_value(s1, s2, s1[k1]));
                let m2 = disagreements(s1, s2, k2);
                assert(rest_of_genes@.contains(rest_of_genes@[m2]));
            } else if !a1 && a2 {
                assert(agreed_value(s1, s2, s1[k2]));
                let m1 = disagreements(s1, s2, k1);
                assert(rest_of_genes@.contains(rest_of_genes@[m1]));
            } else {
                lemma_disagreements_strict(s1, s2, k1, k2);
            }
        }
        assert forall|k: int| 0 <= k < n implies (child_genes@[k] as int) < n as int by {
            if s1[k] != s2[k] {
                lemma_disagreements_bounds(s1, s2, 0, k);
                lemma_disagreements_strict(s1, s2, k, n as int);
            }
        }
        assert(valid_genes(child_genes@));
    }
    Chromosome { genes: child_genes }
}

/// Relies on rayon's `into_par_iter().map(..).collect::<Vec<_>>()` over the
/// range `0..count`: the collected vector has exactly one element per
/// index, each produced by one call of the closure, which only calls
/// [`crossover`] on the two given parents.  The clauses restate that
/// function's contract for every element; each call draws its own
/// randomness, so nothing ties one offspring to another.
#[verifier::external_body]
fn par_offspring(
    parent1: &Chromosome,
    parent2: &Chromosome,
    mutation_probability: Probability,
    count: usize,
) -> (r: Vec<Chromosome>)
    requires
        parent1.genes@.len() == parent2.genes@.len(),
        parent1.genes@.len() <= u16::MAX as int,
        valid_genes(parent1.genes@),
        valid_genes(parent2.genes@),
    ensures
        r@.len() == count as int,
        forall|k: int| #![trigger r@[k]]
            0 <= k < r@.len() ==> r@[k].genes@.len() == parent1.genes@.len() && valid_genes(
                r@[k].genes@,
            ) && (mutation_probability.raw == 0 ==> (forall|i: int|
                0 <= i < parent1.genes@.len() && parent1.genes@[i] == parent2.genes@[i]
                    ==> r@[k].genes@[i] == parent1.genes@[i])),
{
    (0..count).into_par_iter().map(|_| crossover(parent1, parent2, mutation_probability)).collect()
}

/// The two fittest individuals of `s`, taken out one after the other, are
/// a [`top_two`] pair of `s`.
proof fn lemma_take_two_top(
    orig: Seq<Chromosome>,
    after1: Seq<Chromosome>,
    after2: Seq<Chromosome>,
    parent1: Chromosome,
    parent2: Chromosome,
)
    requires
        orig.to_multiset() == after1.to_multiset().insert(parent1),
        after1.to_multiset() == after2.to_multiset().insert(parent2),
        forall|k: int| 0 <= k < after1.len() ==> beats(parent1.genes@) <= beats(
            (#[trigger] after1[k]).genes@,
        ),
        forall|k: int| 0 <= k < after2.len() ==> beats(parent2.genes@) <= beats(
            (#[trigger] after2[k]).genes@,
        ),
    ensures
        top_two(orig, parent1, parent2),
{
    broadcast use vstd::seq_lib::group_to_multiset_ensures;
    broadcast use vstd::multiset::group_multiset_axioms;

    assert(orig.to_multiset().count(parent1) > 0);
    assert(orig.to_multiset().remove(parent1) =~= after1.to_multiset());
    assert(after1.to_multiset().count(parent2) > 0);
    assert forall|x: Chromosome| #[trigger]
        orig.to_multiset().remove(parent1).remove(parent2).contains(x) implies beats(
        parent1.genes@,
    ) <= beats(x.genes@) && beats(parent2.genes@) <= beats(x.genes@) by {
        assert(orig.to_multiset().remove(parent1).remove(parent2) =~= after2.to_multiset());
        assert(after2.to_multiset().count(x) > 0);
        assert(after2.contains(x));
        let j2 = choose|j: int| 0 <= j < after2.len() && after2[j] == x;
        assert(beats(parent2.genes@) <= beats(after2[j2].genes@));
        assert(after1.to_multiset().count(x) > 0);
        assert(after1.contains(x));
        let j1 = choose|j: int| 0 <= j < after1.len() && after1[j] == x;
        assert(beats(parent1.genes@) <= beats(after1[j1].genes@));
    }
}

/// Relies on rayon's `par_sort_by_cached_key`: it reorders the vector in
/// place so that the computed keys ascend, and neither adds nor drops an
/// element.  The key closure only calls [`chromosome_beats`], so ascending
/// keys mean descending fitness.
#[verifier::external_body]
fn par_sort_by_beats(generation: &mut Generation)
    requires
        forall|k: int|
            0 <= k < old(generation)@.len() ==> (#[trigger] old(generation)@[k].genes@).len()
                <= u16::MAX as int,
    ensures
        final(generation)@.to_multiset() == old(generation)@.to_multiset(),
        forall|i: int, j: int|
            0 <= i < j < final(generation)@.len() ==> beats(final(generation)@[i].genes@) <= beats(
                final(generation)@[j].genes@,
            ),
{
    generation.par_sort_by_cached_key(|chromosome| chromosome_beats(chromosome));
}

/// One generation under the kill-the-half strategy: the population is
/// ranked by fitness, the lower half is culled, the two fittest survive
/// unchanged together with the rest of the upper half, and the culled
/// slots are refilled with offspring bred from exactly the two fittest.
fn kill_the_half_impl(
    current_generation: &mut Generation,
    mutation_probability: Probability,
    population_size: usize,
)
    requires
        old(current_generation)@.len() == population_size,
        population_size >= 2,
        wf_population(old(current_generation)@),
        old(current_generation)@[0].genes@.len() <= u16::MAX as int,
        mutation_probability.wf(),
    ensures
        final(current_generation)@.len() == population_size,
        forall|k: int|
            0 <= k < final(current_generation)@.len() ==> valid_genes(
                (#[trigger] final(current_generation)@[k]).genes@,
            ) && final(current_generation)@[k].genes@.len() == old(current_generation)@[0].genes@.len(),
        exists|c1: Chromosome, c2: Chromosome|
            top_two(old(current_generation)@, c1, c2)
                && final(current_generation)@.to_multiset().contains(c1)
                && final(current_generation)@.to_multiset().remove(c1).contains(c2),
        kill_the_half_shape(
            old(current_generation)@,
            final(current_generation)@,
            mutation_probability.raw == 0,
        ),
        (mutation_probability.raw == 0 && uniform_population(old(current_generation)@))
            ==> forall|k: int|
            0 <= k < final(current_generation)@.len()
                ==> (#[trigger] final(current_generation)@[k]).genes@
                == old(current_generation)@[0].genes@,
{
    broadcast use vstd::seq_lib::group_to_multiset_ensures;
    broadcast use vstd::multiset::group_multiset_axioms;

    let ghost orig = current_generation@;
    let ghost base_len = orig[0].genes@.len();

    par_sort_by_beats(current_generation);
    let ghost sorted = current_generation@;
    proof {
        lemma_same_multiset_members(orig, sorted);
        assert(sorted.to_multiset().len() == sorted.len());
        assert(orig.to_multiset().len() == orig.len());
        assert forall|k: int|
            0 <= k < sorted.len() implies valid_genes((#[trigger] sorted[k]).genes@)
            && sorted[k].genes@.len() == base_len by {
            assert(orig.contains(sorted[k]));
            let j = choose|j: int| 0 <= j < orig.len() && orig[j] == sorted[k];
        }
    }

    let parent1 = current_generation.remove(0);
    let ghost after1 = current_generation@;
    let parent2 = current_generation.remove(0);
    let ghost after2 = current_generation@;
    proof {
        sorted.remove_ensures(0);
        after1.remove_ensures(0);
        assert(after1.to_multiset() == sorted.to_multiset().remove(parent1));
        assert(sorted.to_multiset().count(parent1) > 0) by {
            assert(sorted.contains(sorted[0]));
        }
        assert(orig.to_multiset() =~= after1.to_multiset().insert(parent1));
        assert(after2.to_multiset() == after1.to_multiset().remove(parent2));
        assert(after1.to_multiset().count(parent2) > 0) by {
            assert(after1.contains(after1[0]));
        }
        assert(after1.to_multiset() =~= after2.to_multiset().insert(parent2));
        assert forall|k: int| 0 <= k < after1.len() implies beats(parent1.genes@) <= beats(
            (#[trigger] after1[k]).genes@,
        ) by {
            assert(after1[k] == sorted[k + 1]);
        }
        assert forall|k: int| 0 <= k < after2.len() implies beats(parent2.genes@) <= beats(
            (#[trigger] after2[k]).genes@,
        ) by {
            assert(after2[k] == after1[k + 1]);
            assert(after1[k + 1] == sorted[k + 2]);
            assert(parent2 == sorted[1]);
        }
        lemma_take_two_top(orig, after1, after2, parent1, parent2);
    }

    // The rest of the upper half survives; everything below is culled.
    let keep: usize = if population_size / 2 >= 2 {
        population_size / 2 - 2
    } else {
        0
    };
    current_generation.truncate(keep);
    let ghost survivors = current_generation@;
    proof {
        assert(survivors.len() == keep as int);
        assert forall|k: int| 0 <= k < survivors.len() implies #[trigger] survivors[k]
            == sorted[k + 2] by {
            assert(survivors[k] == after2[k]);
            assert(after2[k] == after1[k + 1]);
        }
    }

    let mut offspring = par_offspring(
        &parent1,
        &parent2,
        mutation_probability,
        population_size - 2 - keep,
    );
    let ghost brood = offspring@;
    current_generation.append(&mut offspring);
    current_generation.push(parent1);
    current_generation.push(parent2);

    proof {
        let fin = current_generation@;
        assert(fin == (survivors + brood).push(parent1).push(parent2));
        assert(fin.len() == population_size);
        assert(fin.to_multiset().count(parent1) > 0) by {
            assert(fin[population_size - 2] == parent1);
            assert(fin.contains(parent1));
        }
        assert(fin.to_multiset().remove(parent1).contains(parent2)) by {
            assert((survivors + brood).push(parent1).to_multiset() =~= (survivors
                + brood).to_multiset().insert(parent1));
            assert(fin.to_multiset() =~= (survivors + brood).to_multiset().insert(parent1).insert(
                parent2,
            ));
            assert(fin.to_multiset().remove(parent1) =~= (survivors + brood).to_multiset().insert(
                parent2,
            ));
        }
        assert forall|k: int|
            0 <= k < fin.len() implies valid_genes((#[trigger] fin[k]).genes@) && fin[k].genes@.len()
            == base_len by {
            if k < keep {
                assert(fin[k] == survivors[k]);
                assert(survivors[k] == sorted[k + 2]);
            } else if k < population_size - 2 {
                assert(fin[k] == brood[k - keep]);
            } else if k == population_size - 2 {
                assert(fin[k] == parent1);
                assert(parent1 == sorted[0]);
            } else {
                assert(fin[k] == parent2);
                assert(parent2 == sorted[1]);
            }
        }
        // The structural witness: this sorted reordering and this brood.
        let keep_i = keep as int;
        assert(parent1 == sorted[0]);
        assert(parent2 == sorted[1]) by {
            assert(after1 == sorted.remove(0));
            assert(parent2 == after1[0]);
            assert(after1[0] == sorted[1]);
        }
        assert(survivors =~= sorted.subrange(2, 2 + keep_i)) by {
            assert forall|k: int|
                0 <= k < keep_i implies survivors[k] == sorted.subrange(2, 2 + keep_i)[k] by {
                assert(survivors[k] == sorted[k + 2]);
            }
        }
        assert(fin =~= sorted.subrange(2, 2 + keep_i) + brood + seq![parent1, parent2]);
        if mutation_probability.raw == 0 {
            assert forall|k: int, i: int|
                #![trigger brood[k].genes@[i]]
                0 <= k < brood.len() && 0 <= i < parent1.genes@.len() && parent1.genes@[i]
                    == parent2.genes@[i] implies brood[k].genes@[i] == parent1.genes@[i] by {
                assert(brood[k].genes@[i] == parent1.genes@[i]);
            }
            assert(preserves_agreements(brood, parent1, parent2));
        }
        assert(kill_the_half_witness(orig, fin, mutation_probability.raw == 0, sorted, brood));
        assert(kill_the_half_shape(orig, fin, mutation_probability.raw == 0));
        if mutation_probability.raw == 0 && uniform_population(orig) {
            assert forall|k: int| 0 <= k < sorted.len() implies (#[trigger] sorted[k]).genes@
                == orig[0].genes@ by {
                assert(orig.contains(sorted[k]));
                let j = choose|j: int| 0 <= j < orig.len() && orig[j] == sorted[k];
            }
            assert(parent1.genes@ == orig[0].genes@);
            assert(parent2.genes@ == orig[0].genes@);
            assert forall|k: int| 0 <= k < fin.len() implies (#[trigger] fin[k]).genes@
                == orig[0].genes@ by {
                if k < keep {
                    assert(fin[k] == survivors[k]);
                    assert(survivors[k] == sorted[k + 2]);
                } else if k < population_size - 2 {
                    assert(fin[k] == brood[k - keep]);
                    assert forall|i: int| 0 <= i < base_len implies brood[k - keep].genes@[i]
                        == parent1.genes@[i] by {
                        assert(parent1.genes@[i] == parent2.genes@[i]);
                    }
                    assert(brood[k - keep].genes@ =~= parent1.genes@);
                }
            }
        }
    }
}

/// One generation under the Adam-and-Eve strategy: the two fittest
/// individuals survive unchanged, and every other slot is filled with an
/// offspring bred from exactly those two.
fn adam_and_eve_impl(
    current_generation: &mut Generation,
    mutation_probability: Probability,
    population_size: usize,
)
    requires
        old(current_generation)@.len() == population_size,
        population_size >= 2,
        wf_population(old(current_generation)@),
        old(current_generation)@[0].genes@.len() <= u16::MAX as int,
        mutation_probability.wf(),
    ensures
        final(current_generation)@.len() == population_size,
        forall|k: int|
            0 <= k < final(current_generation)@.len() ==> valid_genes(
                (#[trigger] final(current_generation)@[k]).genes@,
            ) && final(current_generation)@[k].genes@.len() == old(current_generation)@[0].genes@.len(),
        exists|c1: Chromosome, c2: Chromosome|
            top_two(old(current_generation)@, c1, c2)
                && final(current_generation)@.to_multiset().contains(c1)
                && final(current_generation)@.to_multiset().remove(c1).contains(c2)
                && (mutation_probability.raw == 0 ==> preserves_agreements(
                final(current_generation)@,
                c1,
                c2,
            )),
        (mutation_probability.raw == 0 && uniform_population(old(current_generation)@))
            ==> forall|k: int|
            0 <= k < final(current_generation)@.len()
                ==> (#[trigger] final(current_generation)@[k]).genes@
                == old(current_generation)@[0].genes@,
{
    broadcast use vstd::seq_lib::group_to_multiset_ensures;
    broadcast use vstd::multiset::group_multiset_axioms;

    let ghost orig = current_generation@;
    let ghost base_len = orig[0].genes@.len();

    let parent1 = take_max(current_generation);
    let ghost after1 = current_generation@;
    proof {
        assert forall|k: int| 0 <= k < after1.len() implies (#[trigger] after1[k].genes@).len()
            <= u16::MAX as int by {
            assert(orig.contains(after1[k]));
            let j = choose|j: int| 0 <= j < orig.len() && orig[j] == after1[k];
            assert(orig[j].genes@.len() == base_len);
        }
    }
    let parent2 = take_max(current_generation);
    let ghost after2 = current_generation@;

    proof {
        lemma_take_two_top(orig, after1, after2, parent1, parent2);
        let j1 = choose|j: int| 0 <= j < orig.len() && orig[j] == parent1;
        assert(valid_genes(parent1.genes@) && parent1.genes@.len() == base_len);
        assert(after1.contains(parent2));
        let ja = choose|j: int| 0 <= j < after1.len() && after1[j] == parent2;
        assert(orig.contains(after1[ja]));
        let j2 = choose|j: int| 0 <= j < orig.len() && orig[j] == parent2;
        assert(valid_genes(parent2.genes@) && parent2.genes@.len() == base_len);
    }

    let offspring = par_offspring(
        &parent1,
        &parent2,
        mutation_probability,
        population_size - 2,
    );
    let ghost brood = offspring@;
    *current_generation = offspring;
    current_generation.push(parent1);
    current_generation.push(parent2);

    proof {
        let fin = current_generation@;
        assert(fin == brood.push(parent1).push(parent2));
        assert(fin.len() == population_size);
        assert(fin.to_multiset().count(parent1) > 0) by {
            assert(fin[population_size - 2] == parent1);
            assert(fin.contains(parent1));
        }
        assert(fin.to_multiset().remove(parent1).contains(parent2)) by {
            assert(brood.push(parent1).to_multiset() =~= brood.to_multiset().insert(parent1));
            assert(fin.to_multiset() =~= brood.to_multiset().insert(parent1).insert(parent2));
            assert(fin.to_multiset().remove(parent1) =~= brood.to_multiset().insert(parent2));
        }
        assert forall|k: int|
            0 <= k < fin.len() implies valid_genes((#[trigger] fin[k]).genes@) && fin[k].genes@.len()
            == base_len by {
            if k < population_size - 2 {
                assert(fin[k] == brood[k]);
            } else if k == population_size - 2 {
                assert(fin[k] == parent1);
            } else {
                assert(fin[k] == parent2);
            }
        }
        if mutation_probability.raw == 0 {
            assert forall|k: int, i: int|
                #![trigger fin[k].genes@[i]]
                0 <= k < fin.len() && 0 <= i < parent1.genes@.len() && parent1.genes@[i]
                    == parent2.genes@[i] implies fin[k].genes@[i] == parent1.genes@[i] by {
                if k < population_size - 2 {
                    assert(fin[k] == brood[k]);
                    assert(brood[k].genes@[i] == parent1.genes@[i]);
                } else if k == population_size - 2 {
                    assert(fin[k] == parent1);
                } else {
                    assert(fin[k] == parent2);
                }
            }
            assert(preserves_agreements(fin, parent1, parent2));
        }
        if mutation_probability.raw == 0 && uniform_population(orig) {
            let j1 = choose|j: int| 0 <= j < orig.len() && orig[j] == parent1;
            let j2 = choose|j: int| 0 <= j < orig.len() && orig[j] == parent2;
            assert(parent1.genes@ == orig[0].genes@);
            assert(parent2.genes@ == orig[0].genes@);
            assert forall|k: int| 0 <= k < fin.len() implies (#[trigger] fin[k]).genes@
                == orig[0].genes@ by {
                if k < population_size - 2 {
                    assert(fin[k] == brood[k]);
                    assert forall|i: int| 0 <= i < base_len implies brood[k].genes@[i]
                        == parent1.genes@[i] by {
                        assert(parent1.genes@[i] == parent2.genes@[i]);
                    }
                    assert(brood[k].genes@ =~= parent1.genes@);
                }
            }
        }
    }
}

/// One tournament round: sample two distinct individuals uniformly at
/// random and return the position of the fitter one (fewer beaten
/// queens).  The winner beat someone: some other member leaves at least
/// as many queens beaten.
fn tournament_pick(generation: &Generation) -> (winner: usize)
    requires
        generation@.len() >= 2,
        forall|k: int|
            0 <= k < generation@.len() ==> (#[trigger] generation@[k].genes@).len() <= u16::MAX
                as int,
    ensures
        winner < generation@.len(),
        exists|other: int|
            0 <= other < generation@.len() && other != winner as int && beats(
                generation@[winner as int].genes@,
            ) <= #[trigger] beats(generation@[other].genes@),
{
    let n = generation.len();
    let a = random_below(n);
    let b0 = random_below(n - 1);
    let b = if b0 >= a {
        b0 + 1
    } else {
        b0
    };
    assert(a != b);
    if chromosome_beats(&generation[a]) <= chromosome_beats(&generation[b]) {
        assert(beats(generation@[a as int].genes@) <= beats(generation@[b as int].genes@));
        a
    } else {
        assert(beats(generation@[b as int].genes@) <= beats(generation@[a as int].genes@));
        b
    }
}

/// One generation under tournament selection: each parent is the fitter of
/// two individuals sampled uniformly at random without replacement, and
/// every slot of the next generation is filled with an offspring bred from
/// that pair.
fn tournament_impl(
    current_generation: &mut Generation,
    mutation_probability: Probability,
    population_size: usize,
)
    requires
        old(current_generation)@.len() == population_size,
        population_size >= 2,
        wf_population(old(current_generation)@),
        old(current_generation)@[0].genes@.len() <= u16::MAX as int,
        mutation_probability.wf(),
    ensures
        final(current_generation)@.len() == population_size,
        forall|k: int|
            0 <= k < final(current_generation)@.len() ==> valid_genes(
                (#[trigger] final(current_generation)@[k]).genes@,
            ) && final(current_generation)@[k].genes@.len() == old(current_generation)@[0].genes@.len(),
        mutation_probability.raw == 0 ==> exists|i1: int, i2: int|
            0 <= i1 < old(current_generation)@.len() && 0 <= i2 < old(current_generation)@.len()
                && #[trigger] preserves_agreements(
                final(current_generation)@,
                old(current_generation)@[i1],
                old(current_generation)@[i2],
            ),
        (mutation_probability.raw == 0 && uniform_population(old(current_generation)@))
            ==> forall|k: int|
            0 <= k < final(current_generation)@.len()
                ==> (#[trigger] final(current_generation)@[k]).genes@
                == old(current_generation)@[0].genes@,
{
    let ghost orig = current_generation@;
    let ghost base_len = orig[0].genes@.len();

    let i1 = tournament_pick(current_generation);
    let i2 = tournament_pick(current_generation);
    let ghost parent1 = orig[i1 as int];
    let ghost parent2 = orig[i2 as int];
    let offspring = par_offspring(
        &current_generation[i1],
        &current_generation[i2],
        mutation_probability,
        population_size,
    );
    let ghost brood = offspring@;
    *current_generation = offspring;

    proof {
        let fin = current_generation@;
        if mutation_probability.raw == 0 {
            assert forall|k: int, i: int|
                #![trigger fin[k].genes@[i]]
                0 <= k < fin.len() && 0 <= i < parent1.genes@.len() && parent1.genes@[i]
                    == parent2.genes@[i] implies fin[k].genes@[i] == parent1.genes@[i] by {
                assert(fin[k] == brood[k]);
                assert(brood[k].genes@[i] == parent1.genes@[i]);
            }
            assert(preserves_agreements(fin, orig[i1 as int], orig[i2 as int]));
        }
        if mutation_probability.raw == 0 && uniform_population(orig) {
            assert(parent1.genes@ == orig[0].genes@);
            assert(parent2.genes@ == orig[0].genes@);
            assert forall|k: int| 0 <= k < fin.len() implies (#[trigger] fin[k]).genes@
                == orig[0].genes@ by {
                assert(fin[k] == brood[k]);
                assert forall|i: int| 0 <= i < base_len implies brood[k].genes@[i]
                    == parent1.genes@[i] by {
                    assert(parent1.genes@[i] == parent2.genes@[i]);
                }
                assert(brood[k].genes@ =~= parent1.genes@);
            }
        }
    }
}

/// One generation transition: consumes the current population and produces
/// the next one of the same size under the given strategy.
///
/// Under `AdamAndEve` and `KillTheHalf` two fittest individuals of the
/// input survive unchanged into the output; under every strategy the
/// output is a population of permutations of the same columns, and a
/// uniform population of one repeated individual reproduces itself exactly
/// when the mutation probability is zero.
pub fn new_generation(
    selection_strategy: SelectionStrategy,
    current_generation: Generation,
    mutation_probability: Probability,
) -> (next: Generation)
    requires
        current_generation@.len() >= 2,
        wf_population(current_generation@),
        current_generation@[0].genes@.len() <= u16::MAX as int,
        mutation_probability.wf(),
    ensures
        next@.len() == current_generation@.len(),
        wf_population(next@),
        forall|k: int|
            0 <= k < next@.len() ==> (#[trigger] next@[k]).genes@.len()
                == current_generation@[0].genes@.len(),
        selection_strategy != SelectionStrategy::Tournament ==> exists|
            c1: Chromosome,
            c2: Chromosome,
        |
            top_two(current_generation@, c1, c2) && next@.to_multiset().contains(c1)
                && next@.to_multiset().remove(c1).contains(c2),
        selection_strategy == SelectionStrategy::AdamAndEve ==> exists|
            c1: Chromosome,
            c2: Chromosome,
        |
            top_two(current_generation@, c1, c2) && next@.to_multiset().contains(c1)
                && next@.to_multiset().remove(c1).contains(c2) && (mutation_probability.raw == 0
                ==> preserves_agreements(next@, c1, c2)),
        selection_strategy == SelectionStrategy::KillTheHalf ==> kill_the_half_shape(
            current_generation@,
            next@,
            mutation_probability.raw == 0,
        ),
        (selection_strategy == SelectionStrategy::Tournament && mutation_probability.raw == 0)
            ==> exists|i1: int, i2: int|
            0 <= i1 < current_generation@.len() && 0 <= i2 < current_generation@.len()
                && #[trigger] preserves_agreements(
                next@,
                current_generation@[i1],
                current_generation@[i2],
            ),
        (mutation_probability.raw == 0 && uniform_population(current_generation@)) ==> forall|
            k: int,
        |
            0 <= k < next@.len() ==> (#[trigger] next@[k]).genes@ == current_generation@[0].genes@,
{
    let ghost orig = current_generation@;
    let mut next = current_generation;
    let population_size = next.len();

    match selection_strategy {
        SelectionStrategy::AdamAndEve => adam_and_eve_impl(
            &mut next,
            mutation_probability,
            population_size,
        ),
        SelectionStrategy::KillTheHalf => kill_the_half_impl(
            &mut next,
            mutation_probability,
            population_size,
        ),
        SelectionStrategy::Tournament => tournament_impl(
            &mut next,
            mutation_probability,
            population_size,
        ),
    }
    proof {
        assert(next@.len() >= 1);
        assert(next@[0].genes@.len() == orig[0].genes@.len());
    }
    next
}

} // verus!
