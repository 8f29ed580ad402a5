use queen_placement::board::is_fitting;
use queen_placement::board::Board;
use queen_placement::chromosome::Chromosome;

#[test]
fn test_beats_count() {
    assert_eq!(2, Board::from(&Chromosome { genes: vec![0, 0] }).beats_count());
    assert_eq!(2, Board::from(&Chromosome { genes: vec![0, 1] }).beats_count());
    assert_eq!(0, Board::from(&Chromosome { genes: vec![0, 2] }).beats_count());
    assert_eq!(2, Board::from(&Chromosome { genes: vec![1, 0] }).beats_count());
    assert_eq!(0, Board::from(&Chromosome { genes: vec![2, 0] }).beats_count());
    assert_eq!(2, Board::from(&Chromosome { genes: vec![0, 2, 1] }).beats_count());
    assert_eq!(3, Board::from(&Chromosome { genes: vec![0, 2, 2] }).beats_count());
    assert_eq!(0, Board::from(&Chromosome { genes: vec![0, 2, 4] }).beats_count());
}

#[test]
fn beats_count_empty_and_single() {
    assert_eq!(0, Board::from(&Chromosome { genes: vec![] }).beats_count());
    assert_eq!(0, Board::from(&Chromosome { genes: vec![0] }).beats_count());
}

#[test]
fn beats_count_unchanged_by_column_reflection() {
    // Mirror each layout left to right: column c becomes (width - 1) - c.
    let layouts: Vec<Vec<u16>> = vec![
        vec![0, 2, 1],
        vec![1, 3, 0, 2],
        vec![0, 1, 2, 3],
        vec![2, 0, 3, 1],
    ];
    for genes in layouts {
        let width = genes.len() as u16;
        let mirrored: Vec<u16> = genes.iter().map(|c| width - 1 - c).collect();
        assert_eq!(
            Board::from(&Chromosome { genes: genes.clone() }).beats_count(),
            Board::from(&Chromosome { genes: mirrored }).beats_count()
        );
    }
}

#[test]
fn beats_count_unchanged_by_row_reversal() {
    // Turn each layout upside down: read the rows in reverse order.
    let layouts: Vec<Vec<u16>> = vec![
        vec![0, 2, 1],
        vec![1, 3, 0, 2],
        vec![0, 1, 2, 3],
        vec![2, 0, 3, 1],
    ];
    for genes in layouts {
        let reversed: Vec<u16> = genes.iter().rev().copied().collect();
        assert_eq!(
            Board::from(&Chromosome { genes: genes.clone() }).beats_count(),
            Board::from(&Chromosome { genes: reversed }).beats_count()
        );
    }
}

#[test]
fn is_fitting_exactly_on_zero_beats() {
    // A known 4-queens solution has fitness 1; the identity layout does not.
    let solution = Chromosome { genes: vec![1, 3, 0, 2] };
    assert_eq!(0, Board::from(&solution).beats_count());
    assert!(is_fitting(&solution));
    let diagonal = Chromosome { genes: vec![0, 1, 2, 3] };
    assert_eq!(4, Board::from(&diagonal).beats_count());
    assert!(!is_fitting(&diagonal));
}
