use queen_placement::board::is_fitting;
use queen_placement::chromosome::Chromosome;
use queen_placement::config::Config;
use queen_placement::selection::new_generation;
use queen_placement::selection::Probability;
use queen_placement::selection::SelectionStrategy;
use queen_placement::selection::PROBABILITY_SCALE;

fn is_permutation(genes: &[u16]) -> bool {
    let n = genes.len();
    let mut seen = vec![false; n];
    for &g in genes {
        if (g as usize) >= n || seen[g as usize] {
            return false;
        }
        seen[g as usize] = true;
    }
    true
}

#[test]
fn four_queens_search_terminates() {
    // Board size 4, generation size 10, Adam-and-Eve strategy, mutation
    // probability 0.1: the loop finds a solution well within 200
    // generations.
    let mutation_probability = Probability::new(PROBABILITY_SCALE / 10).unwrap();
    let mut generation = Chromosome::create_generation(4, 10);
    let mut found = generation.iter().any(|c| is_fitting(c));
    let mut rounds: u32 = 0;
    while !found && rounds < 200 {
        generation = new_generation(SelectionStrategy::AdamAndEve, generation, mutation_probability);
        rounds += 1;
        found = generation.iter().any(|c| is_fitting(c));
    }
    assert!(found, "no solution within 200 generations");
    let solution = generation.iter().find(|c| is_fitting(c)).unwrap();
    assert!(is_permutation(solution.genes()));
    // The only 4-queens solutions are [1, 3, 0, 2] and [2, 0, 3, 1].
    assert!(solution.genes() == [1, 3, 0, 2] || solution.genes() == [2, 0, 3, 1]);
}

#[test]
fn config_validation() {
    let good = Config {
        board_size: 8,
        generation_size: 100,
        mutation_probability: Probability::new(PROBABILITY_SCALE / 10).unwrap(),
        selection_strategy: SelectionStrategy::AdamAndEve,
    };
    assert!(good.validate());
    let too_small = Config { generation_size: 1, ..good };
    assert!(!too_small.validate());
    let bad_probability = Config {
        mutation_probability: Probability { raw: PROBABILITY_SCALE + 1 },
        ..good
    };
    assert!(!bad_probability.validate());
}
