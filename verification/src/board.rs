//! The fitness evaluator: a read-only view over a chromosome that counts how
//! many queens are under attack.

use crate::chromosome::Chromosome;
use crate::chromosome::Gene;
use rayon::prelude::IndexedParallelIterator;
use rayon::prelude::IntoParallelRefIterator;
use rayon::prelude::ParallelIterator;
use vstd::prelude::*;
use vstd::relations::injective_on;
use vstd::set_lib::lemma_map_size;

verus! {

/// The magnitude of an integer difference.
pub open spec fn abs_int(a: int) -> int {
    if a < 0 {
        -a
    } else {
        a
    }
}

/// The queens in rows `i` and `j` attack each other: distinct rows that
/// share a column or a diagonal.  Rows are distinct by construction (one
/// queen per row), so a row attack cannot occur.
pub open spec fn attacks(s: Seq<Gene>, i: int, j: int) -> bool {
    i != j && (s[i] == s[j] || abs_int(i - j) == abs_int(s[i] - s[j]))
}

/// The queen in row `i` is attacked by at least one other queen.
pub open spec fn attacked(s: Seq<Gene>, i: int) -> bool {
    exists|j: int| 0 <= j < s.len() && attacks(s, i, j)
}

/// How many of the rows `0..n` hold an attacked queen.
pub open spec fn beats_up_to(s: Seq<Gene>, n: int) -> int
    decreases n,
{
    if n <= 0 {
        0
    } else {
        beats_up_to(s, n - 1) + if attacked(s, n - 1) {
            1int
        } else {
            0int
        }
    }
}

/// The number of attacked queens on the whole board (not the number of
/// attacking pairs: a queen attacked twice counts once).
pub open spec fn beats(s: Seq<Gene>) -> int {
    beats_up_to(s, s.len() as int)
}

/// A layout solves the puzzle when no queen is attacked; its fitness
/// `1 / (beats + 1)` is then exactly 1.
pub open spec fn solved(s: Seq<Gene>) -> bool {
    beats(s) == 0
}

/// At most `n` of the first `n` queens are attacked.
pub proof fn lemma_beats_up_to_bound(s: Seq<Gene>, n: int)
    ensures
        0 <= beats_up_to(s, n) <= if n <= 0 {
            0int
        } else {
            n
        },
    decreases n,
{
    if n > 0 {
        lemma_beats_up_to_bound(s, n - 1);
    }
}

/// The denominator of a candidate's fitness: the fitness is the rational
/// `1 / (beats + 1)`.
pub open spec fn fitness_denominator(s: Seq<Gene>) -> int {
    beats(s) + 1
}

/// Fitness, the rational `1 / (beats + 1)`, reaches its maximum 1 exactly
/// on solved boards, and it strictly decreases as the count of beaten
/// queens grows.  Both comparisons of the rationals are stated
/// cross-multiplied (their numerators are 1).
pub proof fn lemma_fitness_of_beats(s1: Seq<Gene>, s2: Seq<Gene>)
    ensures
        solved(s1) <==> 1 * fitness_denominator(s1) == 1,  // fitness(s1) == 1
        beats(s1) < beats(s2) <==> 1 * fitness_denominator(s2) > 1 * fitness_denominator(s1),  // fitness(s1) > fitness(s2)
        0 < fitness_denominator(s1),  // fitness lies in (0, 1]
{
    lemma_beats_up_to_bound(s1, s1.len() as int);
    lemma_beats_up_to_bound(s2, s2.len() as int);
}

proof fn lemma_attacked_witness(s: Seq<Gene>, i: int) -> (j: int)
    requires
        attacked(s, i),
    ensures
        0 <= j < s.len() && attacks(s, i, j),
{
    choose|j: int| 0 <= j < s.len() && attacks(s, i, j)
}

proof fn lemma_beats_up_to_pointwise(s: Seq<Gene>, t: Seq<Gene>, n: int)
    requires
        s.len() == t.len(),
        n <= s.len(),
        forall|i: int| 0 <= i < s.len() ==> ((#[trigger] attacked(s, i)) <==> attacked(t, i)),
    ensures
        beats_up_to(s, n) == beats_up_to(t, n),
    decreases n,
{
    if n > 0 {
        lemma_beats_up_to_pointwise(s, t, n - 1);
    }
}

/// Mirroring the board left to right - every queen in column `col` moves
/// to column `c - col` for the fixed sum `c` - changes the columns the
/// queens stand in but not which queens are beaten.
pub proof fn lemma_beats_reflect_columns(s: Seq<Gene>, t: Seq<Gene>, c: int)
    requires
        s.len() == t.len(),
        forall|i: int| 0 <= i < s.len() ==> s[i] + t[i] == c,
    ensures
        beats(t) == beats(s),
{
    assert forall|i: int| 0 <= i < s.len() implies ((#[trigger] attacked(s, i)) <==> attacked(t, i)) by {
        if attacked(s, i) {
            let j = lemma_attacked_witness(s, i);
            assert(attacks(t, i, j));
        }
        if attacked(t, i) {
            let j = lemma_attacked_witness(t, i);
            assert(attacks(s, i, j));
        }
    }
    lemma_beats_up_to_pointwise(s, t, s.len() as int);
}

proof fn lemma_beats_as_set(s: Seq<Gene>, m: int)
    requires
        0 <= m,
    ensures
        Set::new(|i: int| 0 <= i < m && attacked(s, i)).finite(),
        Set::new(|i: int| 0 <= i < m && attacked(s, i)).len() == beats_up_to(s, m),
    decreases m,
{
    broadcast use vstd::set::group_set_axioms;

    let cur = Set::new(|i: int| 0 <= i < m && attacked(s, i));
    if m == 0 {
        assert(cur =~= Set::<int>::empty());
    } else {
        lemma_beats_as_set(s, m - 1);
        let prev = Set::new(|i: int| 0 <= i < m - 1 && attacked(s, i));
        if attacked(s, m - 1) {
            assert(!prev.contains(m - 1));
            assert(cur =~= prev.insert(m - 1));
        } else {
            assert(cur =~= prev);
        }
    }
}

/// Turning the board upside down - reading the rows in reverse order -
/// renames the rows by a permutation but leaves the count of beaten queens
/// unchanged.
pub proof fn lemma_beats_reverse_rows(s: Seq<Gene>, t: Seq<Gene>)
    requires
        t.len() == s.len(),
        forall|i: int| 0 <= i < s.len() ==> t[i] == s[s.len() - 1 - i],
    ensures
        beats(t) == beats(s),
{
    broadcast use vstd::set::group_set_axioms;

    let n = s.len() as int;
    assert forall|i: int| 0 <= i < n implies ((#[trigger] attacked(t, i)) <==> attacked(s, n - 1 - i)) by {
        if attacked(t, i) {
            let j = lemma_attacked_witness(t, i);
            assert(attacks(s, n - 1 - i, n - 1 - j));
        }
        if attacked(s, n - 1 - i) {
            let j = lemma_attacked_witness(s, n - 1 - i);
            assert(attacks(t, i, n - 1 - j));
        }
    }
    let rows_t = Set::new(|i: int| 0 <= i < n && attacked(t, i));
    let rows_s = Set::new(|i: int| 0 <= i < n && attacked(s, i));
    lemma_beats_as_set(t, n);
    lemma_beats_as_set(s, n);
    let f = |i: int| n - 1 - i;
    assert(injective_on(f, rows_s));
    assert(rows_s.map(f) =~= rows_t) by {
        assert forall|x: int| rows_t.contains(x) implies rows_s.map(f).contains(x) by {
            assert(attacked(s, n - 1 - x));
            assert(rows_s.contains(n - 1 - x));
            assert(f(n - 1 - x) == x);
        }
        assert forall|x: int| rows_s.map(f).contains(x) implies rows_t.contains(x) by {
            let a = choose|a: int| rows_s.contains(a) && f(a) == x;
            assert(attacked(t, n - 1 - a));
        }
    }
    lemma_map_size(rows_s, rows_t, f);
}

/// The evaluator: a non-owning view over one chromosome.
#[derive(Debug, Clone, PartialEq, Eq)]
pub struct Board<'ch>(pub &'ch Chromosome);

impl<'ch> From<&'ch Chromosome> for Board<'ch> {
    #[inline]
    fn from(chromosome: &'ch Chromosome) -> (r: Self) {
        Self(chromosome)
    }
}

impl<'ch> vstd::std_specs::convert::FromSpecImpl<&'ch Chromosome> for Board<'ch> {
    open spec fn obeys_from_spec() -> bool {
        true
    }

    open spec fn from_spec(chromosome: &'ch Chromosome) -> Self {
        Board(chromosome)
    }
}

/// Whether the queen in row `i` is attacked: a linear scan of the other rows.
pub(crate) fn attacked_at(genes: &Vec<Gene>, i: usize) -> (r: bool)
    requires
        i < genes@.len(),
    ensures
        r == attacked(genes@, i as int),
{
    let n = genes.len();
    let gi = genes[i];
    let mut found = false;
    for j in 0..n
        invariant
            i < n,
            n == genes@.len(),
            gi == genes@[i as int],
            found == exists|k: int| 0 <= k < j && attacks(genes@, i as int, k),
    {
        if j != i {
            let gj = genes[j];
            let row_diff: usize = if j >= i {
                j - i
            } else {
                i - j
            };
            let col_diff: u16 = if gj >= gi {
                gj - gi
            } else {
                gi - gj
            };
            if gj == gi || row_diff == col_diff as usize {
                assert(attacks(genes@, i as int, j as int));
                found = true;
            }
        }
    }
    found
}

/// Relies on rayon's `par_iter().enumerate().filter(..).count()`: the count
/// is exactly the number of indices that the filter closure accepts, and the
/// closure only calls [`attacked_at`] on its index.  The clause is that
/// function's contract summed over all rows.
#[verifier::external_body]
fn par_count_attacked(genes: &Vec<Gene>) -> (r: usize)
    ensures
        r == beats(genes@),
{
    genes.par_iter().enumerate().filter(|(i, _)| attacked_at(genes, *i)).count()
}

impl<'ch> Board<'ch> {
    /// Amount of chess pieces that have been beaten.
    pub fn beats_count(&self) -> (r: u16)
        requires
            self.0.genes@.len() <= u16::MAX as int,
        ensures
            r == beats(self.0.genes@),
    {
        let count = par_count_attacked(&self.0.genes);
        proof {
            lemma_beats_up_to_bound(self.0.genes@, self.0.genes@.len() as int);
        }
        count as u16
    }
}

/// A candidate is a full solution exactly when no queen is attacked, that
/// is, when its fitness `1 / (beats + 1)` equals 1.
pub fn is_fitting(ch: &Chromosome) -> (r: bool)
    requires
        ch.genes@.len() <= u16::MAX as int,
    ensures
        r == solved(ch.genes@),
{
    Board::from(ch).beats_count() == 0
}

} // verus!
