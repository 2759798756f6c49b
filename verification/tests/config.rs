use gol_core::config::{collect_cell_counts, CellCount};
use std::collections::HashSet;

#[test]
fn collect_counts_and_ranges() {
    let counts = vec![
        CellCount::Integer(2),
        CellCount::Range(vec![4, 6]),
        CellCount::Integer(5),
    ];
    let got = collect_cell_counts(&counts);
    let expected: HashSet<usize> = [2, 4, 5, 6].into_iter().collect();
    assert_eq!(got, expected);
}

#[test]
fn collect_counts_range_uses_first_and_last() {
    let counts = vec![CellCount::Range(vec![1, 9, 3])];
    let got = collect_cell_counts(&counts);
    let expected: HashSet<usize> = [1, 2, 3].into_iter().collect();
    assert_eq!(got, expected);
    let reversed = vec![CellCount::Range(vec![5, 2])];
    assert!(collect_cell_counts(&reversed).is_empty());
    assert!(collect_cell_counts(&vec![]).is_empty());
}
