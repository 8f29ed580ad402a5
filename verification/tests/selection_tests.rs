use queen_placement::board::Board;
use queen_placement::chromosome::Chromosome;
use queen_placement::selection::crossover;
use queen_placement::selection::new_generation;
use queen_placement::selection::random_probability;
use queen_placement::selection::take_max;
use queen_placement::selection::Probability;
use queen_placement::selection::ProbabilityOutOfRange;
use queen_placement::selection::SelectionStrategy;
use queen_placement::selection::PROBABILITY_SCALE;

fn is_permutation(genes: &[u16]) -> bool {
    let n = genes.len();
    let mut seen = vec![false; n];
    for &g in genes {
        if (g as usize) >= n || seen[g as usize] {
            return false;
        }
        seen[g as usize] = true;
    }
    true
}

fn never() -> Probability {
    Probability::new(0).unwrap()
}

fn contains_genes(generation: &[Chromosome], genes: &[u16]) -> bool {
    generation.iter().any(|c| c.genes() == genes)
}

// A population of six 4-column permutations: two solutions (0 queens
// beaten), one middling layout (2 beaten), three poor ones (4 beaten).
fn sample_population() -> Vec<Chromosome> {
    vec![
        Chromosome::from(vec![0, 1, 2, 3]),
        Chromosome::from(vec![3, 1, 0, 2]),
        Chromosome::from(vec![1, 3, 0, 2]),
        Chromosome::from(vec![3, 2, 1, 0]),
        Chromosome::from(vec![2, 0, 3, 1]),
        Chromosome::from(vec![0, 2, 1, 3]),
    ]
}

#[test]
fn test_crossover() {
    let parent1 = Chromosome::new(5);
    let parent2 = Chromosome::new(5);
    let crossover = crossover(&parent1, &parent2, random_probability());
    println!("{parent1:#?}\n{parent2:#?}\n{crossover:#?}");
    assert_eq!(5, crossover.genes.len());
}

#[test]
fn crossover_returns_a_permutation() {
    for _ in 0..20 {
        let parent1 = Chromosome::new(8);
        let parent2 = Chromosome::new(8);
        let child = crossover(&parent1, &parent2, never());
        assert!(is_permutation(child.genes()));
    }
}

#[test]
fn crossover_under_certain_mutation_is_a_permutation() {
    let always = Probability::new(PROBABILITY_SCALE).unwrap();
    for _ in 0..20 {
        let parent1 = Chromosome::new(8);
        let parent2 = Chromosome::new(8);
        let child = crossover(&parent1, &parent2, always);
        assert!(is_permutation(child.genes()));
    }
}

#[test]
fn crossover_preserves_agreement_rows() {
    // The parents agree on rows 0 and 2; without mutation the offspring
    // must carry those genes unchanged.
    let parent1 = Chromosome::from(vec![1, 3, 0, 2]);
    let parent2 = Chromosome::from(vec![1, 2, 0, 3]);
    for _ in 0..20 {
        let child = crossover(&parent1, &parent2, never());
        assert_eq!(1, child.genes[0]);
        assert_eq!(0, child.genes[2]);
        assert!(is_permutation(child.genes()));
    }
}

#[test]
fn crossover_of_equal_parents_is_the_parent() {
    let parent = Chromosome::from(vec![2, 0, 3, 1]);
    let child = crossover(&parent, &parent.clone(), never());
    assert_eq!(parent, child);
}

#[test]
fn take_max_picks_the_fittest() {
    let mut generation = vec![
        Chromosome::from(vec![0, 1, 2, 3]),
        Chromosome::from(vec![3, 1, 0, 2]),
        Chromosome::from(vec![1, 3, 0, 2]),
    ];
    let best = take_max(&mut generation);
    assert_eq!(&[1, 3, 0, 2], best.genes());
    assert_eq!(2, generation.len());
    assert!(contains_genes(&generation, &[0, 1, 2, 3]));
    assert!(contains_genes(&generation, &[3, 1, 0, 2]));
}

#[test]
fn adam_and_eve_keeps_the_two_best() {
    let population = sample_population();
    let next = new_generation(SelectionStrategy::AdamAndEve, population, never());
    assert_eq!(6, next.len());
    assert!(contains_genes(&next, &[1, 3, 0, 2]));
    assert!(contains_genes(&next, &[2, 0, 3, 1]));
    for c in &next {
        assert_eq!(4, c.genes().len());
        assert!(is_permutation(c.genes()));
    }
}

#[test]
fn adam_and_eve_offspring_inherit_agreements() {
    // The two fittest members are the two 5-queens solutions, and they
    // agree on row 0 (both place its queen in column 0); without mutation
    // every member of the next generation keeps that gene.
    let population = vec![
        Chromosome::from(vec![0, 1, 2, 3, 4]),
        Chromosome::from(vec![0, 2, 4, 1, 3]),
        Chromosome::from(vec![4, 3, 2, 1, 0]),
        Chromosome::from(vec![0, 3, 1, 4, 2]),
        Chromosome::from(vec![1, 2, 3, 4, 0]),
        Chromosome::from(vec![3, 4, 0, 1, 2]),
    ];
    let next = new_generation(SelectionStrategy::AdamAndEve, population, never());
    assert_eq!(6, next.len());
    for c in &next {
        assert_eq!(0, c.genes[0]);
        assert!(is_permutation(c.genes()));
    }
}

#[test]
fn kill_the_half_keeps_the_best() {
    let population = sample_population();
    let next = new_generation(SelectionStrategy::KillTheHalf, population, never());
    assert_eq!(6, next.len());
    assert!(contains_genes(&next, &[1, 3, 0, 2]));
    assert!(contains_genes(&next, &[2, 0, 3, 1]));
    for c in &next {
        assert_eq!(4, c.genes().len());
        assert!(is_permutation(c.genes()));
    }
}

#[test]
fn kill_the_half_refills_from_the_top_two() {
    // Six 5-column layouts: the two 5-queens solutions (the fittest, and
    // they agree on row 0, both placing its queen in column 0) and four
    // heavily beaten ones.  Without mutation the next generation holds the
    // two solutions unchanged, one survivor from the sorted top half, and
    // three offspring bred from the two solutions - so at least five of
    // the six members carry the agreed gene.
    let population = vec![
        Chromosome::from(vec![0, 1, 2, 3, 4]),
        Chromosome::from(vec![0, 2, 4, 1, 3]),
        Chromosome::from(vec![4, 3, 2, 1, 0]),
        Chromosome::from(vec![0, 3, 1, 4, 2]),
        Chromosome::from(vec![1, 2, 3, 4, 0]),
        Chromosome::from(vec![3, 4, 0, 1, 2]),
    ];
    let next = new_generation(SelectionStrategy::KillTheHalf, population, never());
    assert_eq!(6, next.len());
    assert!(contains_genes(&next, &[0, 2, 4, 1, 3]));
    assert!(contains_genes(&next, &[0, 3, 1, 4, 2]));
    let agreed = next.iter().filter(|c| c.genes[0] == 0).count();
    assert!(agreed >= 5);
}

#[test]
fn tournament_fills_a_population() {
    let population = sample_population();
    let next = new_generation(SelectionStrategy::Tournament, population, never());
    assert_eq!(6, next.len());
    for c in &next {
        assert_eq!(4, c.genes().len());
        assert!(is_permutation(c.genes()));
    }
}

#[test]
fn solved_uniform_population_reproduces_itself() {
    // A population of one repeated solution stays all-solved under every
    // strategy when the mutation probability is zero.
    let solution = Chromosome::from(vec![1, 3, 0, 2]);
    for strategy in [
        SelectionStrategy::AdamAndEve,
        SelectionStrategy::KillTheHalf,
        SelectionStrategy::Tournament,
    ] {
        let population: Vec<Chromosome> = vec![solution.clone(); 6];
        let next = new_generation(strategy, population, never());
        assert_eq!(6, next.len());
        for c in &next {
            assert_eq!(solution, *c);
            assert_eq!(0, Board::from(c).beats_count());
        }
    }
}

#[test]
fn probability_new_accepts_exactly_the_unit_interval() {
    assert_eq!(0, Probability::new(0).unwrap().raw);
    assert_eq!(PROBABILITY_SCALE / 10, Probability::new(PROBABILITY_SCALE / 10).unwrap().raw);
    assert_eq!(PROBABILITY_SCALE, Probability::new(PROBABILITY_SCALE).unwrap().raw);
    assert_eq!(Err(ProbabilityOutOfRange), Probability::new(PROBABILITY_SCALE + 1));
    assert_eq!(Err(ProbabilityOutOfRange), Probability::new(u64::MAX));
}

#[test]
fn random_probability_is_in_range() {
    for _ in 0..100 {
        assert!(random_probability().raw <= PROBABILITY_SCALE);
    }
}
