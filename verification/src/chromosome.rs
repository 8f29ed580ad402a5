//! The candidate representation: a chromosome is one queen placement,
//! `genes[row]` giving the column of the queen in `row`.

use rand::seq::SliceRandom;
use rayon::prelude::IntoParallelIterator;
use rayon::prelude::ParallelIterator;
use vstd::prelude::*;
use vstd::set_lib::lemma_int_range;
use vstd::set_lib::lemma_len_subset;
use vstd::set_lib::lemma_subset_equality;
use vstd::set_lib::set_int_range;

verus! {

/// The column index a queen occupies within its row.
pub type Gene = u16;

/// One candidate layout.
///
/// Candidates produced by [`Chromosome::new`] and by the selection engine are
/// always permutations of `0..len` (see [`valid_genes`]); a chromosome built
/// directly from a gene vector may carry arbitrary genes, which the board
/// evaluator still accepts.
#[derive(Debug, Clone, PartialEq, Eq, Hash)]
pub struct Chromosome {
    pub genes: Vec<Gene>,
}

/// The gene sequence is a permutation of `0..len`: every value is in range
/// and no value repeats.
pub open spec fn valid_genes(s: Seq<Gene>) -> bool {
    &&& forall|i: int| 0 <= i < s.len() ==> (s[i] as int) < s.len()
    &&& forall|i: int, j: int| 0 <= i < j < s.len() ==> s[i] != s[j]
}

/// A valid gene sequence leaves no column out: its set of genes is exactly
/// `{0, ..., len - 1}`.  Distinct genes, each in range, as many as there
/// are columns, must hit every column.
pub proof fn lemma_valid_genes_complete(s: Seq<Gene>)
    requires
        valid_genes(s),
    ensures
        forall|v: Gene| (v as int) < s.len() ==> s.contains(v),
{
    broadcast use vstd::set::group_set_axioms;

    let n = s.len() as int;
    let si = s.map_values(|g: Gene| g as int);
    assert(si.no_duplicates()) by {
        assert forall|i: int, j: int|
            0 <= i < si.len() && 0 <= j < si.len() && i != j implies si[i] != si[j] by {
            assert(s[i] != s[j]);
        }
    }
    si.unique_seq_to_set();
    lemma_int_range(0, n);
    assert(si.to_set().subset_of(set_int_range(0, n))) by {
        assert forall|x: int| si.to_set().contains(x) implies set_int_range(0, n).contains(x) by {
            let m = choose|m: int| 0 <= m < si.len() && si[m] == x;
            assert((s[m] as int) < n);
        }
    }
    lemma_len_subset(si.to_set(), set_int_range(0, n));
    lemma_subset_equality(si.to_set(), set_int_range(0, n));
    assert forall|v: Gene| (v as int) < s.len() implies s.contains(v) by {
        assert(set_int_range(0, n).contains(v as int));
        assert(si.to_set().contains(v as int));
        let m = choose|m: int| 0 <= m < si.len() && si[m] == v as int;
        assert(s[m] == v);
    }
}

/// Reordering keeps a gene sequence's length, its distinctness, and which
/// genes it holds.
pub proof fn lemma_reordered_genes(a: Seq<Gene>, b: Seq<Gene>)
    requires
        a.to_multiset() == b.to_multiset(),
        a.no_duplicates(),
    ensures
        b.no_duplicates(),
        b.len() == a.len(),
        forall|v: Gene| #[trigger] b.contains(v) <==> a.contains(v),
{
    broadcast use vstd::seq_lib::group_to_multiset_ensures;

    assert(a.to_multiset().len() == a.len());
    assert(b.to_multiset().len() == b.len());
    assert forall|v: Gene| #[trigger] b.contains(v) <==> a.contains(v) by {
        assert(b.contains(v) <==> b.to_multiset().count(v) > 0);
        assert(a.contains(v) <==> a.to_multiset().count(v) > 0);
    }
    a.lemma_multiset_has_no_duplicates();
    b.lemma_multiset_has_no_duplicates_conv();
}

/// Reordering a gene sequence neither gains nor loses validity: a sequence
/// with the same multiset of genes as a permutation of `0..len` is itself a
/// permutation of `0..len`.
pub proof fn lemma_reordered_valid(a: Seq<Gene>, b: Seq<Gene>)
    requires
        a.to_multiset() == b.to_multiset(),
        valid_genes(a),
    ensures
        valid_genes(b),
        b.len() == a.len(),
{
    assert(a.no_duplicates());
    lemma_reordered_genes(a, b);
    assert forall|i: int| 0 <= i < b.len() implies (b[i] as int) < b.len() by {
        assert(b.contains(b[i]));
        assert(a.contains(b[i]));
        let j = choose|j: int| 0 <= j < a.len() && a[j] == b[i];
        assert((a[j] as int) < a.len());
    }
    assert(b.no_duplicates());
}

/// Relies on rand's `SliceRandom::shuffle` with the thread-local generator:
/// a Fisher-Yates shuffle that only swaps elements of the slice in place, so
/// the multiset of genes is unchanged.  Which order comes out is random.
#[verifier::external_body]
pub(crate) fn shuffle_genes(genes: &mut Vec<Gene>)
    ensures
        final(genes)@.to_multiset() == old(genes)@.to_multiset(),
{
    genes.as_mut_slice().shuffle(&mut rand::thread_rng());
}

impl Chromosome {
    /// A uniformly random permutation of the columns `0..base`.
    pub fn new(base: u16) -> (r: Self)
        ensures
            r.genes@.len() == base as int,
            valid_genes(r.genes@),
    {
        let mut genes: Vec<Gene> = Vec::new();
        for g in 0..base
            invariant
                genes@.len() == g as int,
                forall|i: int| 0 <= i < genes@.len() ==> genes@[i] == i as u16,
        {
            genes.push(g);
        }
        assert(valid_genes(genes@));
        let ghost ascending = genes@;
        shuffle_genes(&mut genes);
        proof {
            lemma_reordered_valid(ascending, genes@);
        }
        Self { genes }
    }

    /// Read access to the gene sequence, for display and evaluation.
    #[inline]
    pub fn genes(&self) -> (r: &[Gene])
        ensures
            r@ == self.genes@,
    {
        self.genes.as_slice()
    }

    /// An initial population: `population_size` independent uniformly random
    /// candidates for a `board_size` x `board_size` board.
    pub fn create_generation(board_size: u16, population_size: usize) -> (r: Vec<Chromosome>)
        ensures
            r@.len() == population_size as int,
            forall|k: int| #![trigger r@[k]]
                0 <= k < r@.len() ==> r@[k].genes@.len() == board_size as int
                    && valid_genes(r@[k].genes@),
    {
        par_new_chromosomes(board_size, population_size)
    }
}

/// Relies on rayon's `into_par_iter().map(..).collect::<Vec<_>>()` over the
/// range `0..count`: the collected vector has exactly one element per index,
/// each produced by one call of the closure, which here only calls
/// [`Chromosome::new`]; the stated clauses restate that function's contract
/// for every element.
#[verifier::external_body]
fn par_new_chromosomes(base: u16, count: usize) -> (r: Vec<Chromosome>)
    ensures
        r@.len() == count as int,
        forall|k: int| #![trigger r@[k]]
            0 <= k < r@.len() ==> r@[k].genes@.len() == base as int && valid_genes(r@[k].genes@),
{
    (0..count).into_par_iter().map(|_| Chromosome::new(base)).collect()
}

impl From<Vec<Gene>> for Chromosome {
    #[inline]
    fn from(genes: Vec<Gene>) -> (r: Self) {
        Self { genes }
    }
}

impl vstd::std_specs::convert::FromSpecImpl<Vec<Gene>> for Chromosome {
    open spec fn obeys_from_spec() -> bool {
        true
    }

    open spec fn from_spec(genes: Vec<Gene>) -> Self {
        Chromosome { genes }
    }
}

} // verus!
