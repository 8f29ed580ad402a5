use queen_placement::chromosome::Chromosome;

fn is_permutation(genes: &[u16]) -> bool {
    let n = genes.len();
    let mut seen = vec![false; n];
    for &g in genes {
        if (g as usize) >= n || seen[g as usize] {
            return false;
        }
        seen[g as usize] = true;
    }
    true
}

#[test]
fn test_gene_new() {
    let len = 5;
    let chromosome = Chromosome::new(len);
    println!("{chromosome:#?}");
    assert_eq!(chromosome.genes.len(), len as usize);
}

#[test]
fn new_is_permutation() {
    for base in [2u16, 3, 8, 16] {
        for _ in 0..20 {
            let chromosome = Chromosome::new(base);
            assert_eq!(base as usize, chromosome.genes.len());
            assert!(is_permutation(chromosome.genes()));
        }
    }
}

#[test]
fn new_degenerate_sizes() {
    assert!(Chromosome::new(0).genes().is_empty());
    assert_eq!(&[0], Chromosome::new(1).genes());
}

#[test]
fn genes_exposes_the_sequence() {
    let chromosome = Chromosome::from(vec![3, 1, 2, 0]);
    assert_eq!(&[3, 1, 2, 0], chromosome.genes());
}

#[test]
fn create_generation_sizes_and_permutations() {
    let generation = Chromosome::create_generation(6, 10);
    assert_eq!(10, generation.len());
    for chromosome in &generation {
        assert_eq!(6, chromosome.genes.len());
        assert!(is_permutation(chromosome.genes()));
    }
}

#[test]
fn create_generation_empty() {
    assert!(Chromosome::create_generation(4, 0).is_empty());
}
