use heart_cli::broadphase::{build_grid, clamp_cell, neighbour_candidates};
use heart_cli::lcg::Lcg;

#[test]
fn cells_are_clamped_to_the_grid() {
    assert_eq!(clamp_cell(3, 10), 3);
    assert_eq!(clamp_cell(9, 10), 9);
    assert_eq!(clamp_cell(12, 10), 9);
    assert_eq!(clamp_cell(0, 1), 0);
}

#[test]
fn grid_buckets_hold_hearts_in_order() {
    let cells = vec![(0, 0), (1, 0), (0, 0), (2, 1), (1, 1)];
    let grid = build_grid(&cells, 3, 2);
    assert_eq!(grid, vec![vec![0, 2], vec![1], vec![], vec![], vec![4], vec![3]]);
}

#[test]
fn candidates_are_later_hearts_right_and_below() {
    let cells = vec![(0, 0), (1, 0), (0, 0), (2, 1), (1, 1), (0, 1)];
    let grid = build_grid(&cells, 3, 2);
    // Heart 0 in (0,0): own cell {0,2}, right (1,0) {1}, below (0,1) {5}, below right (1,1) {4}.
    assert_eq!(neighbour_candidates(&grid, 3, 2, 0, 0, 0), vec![2, 1, 5, 4]);
    // Heart 2 only sees later hearts.
    assert_eq!(neighbour_candidates(&grid, 3, 2, 0, 0, 2), vec![5, 4]);
    // Heart 3 in the last column and row has no neighbour cells.
    assert_eq!(neighbour_candidates(&grid, 3, 2, 2, 1, 3), Vec::<usize>::new());
    // Heart 4 in (1,1): right is (2,1) with heart 3, which is numbered lower.
    assert_eq!(neighbour_candidates(&grid, 3, 2, 1, 1, 4), Vec::<usize>::new());
    // Brute force: every pair (i, j) with j > i in adjacent cells appears once.
    for i in 0..cells.len() {
        let (x, y) = cells[i];
        let got = neighbour_candidates(&grid, 3, 2, x, y, i);
        let mut expected: Vec<usize> = Vec::new();
        for (dx, dy) in [(0, 0), (1, 0), (0, 1), (1, 1)] {
            for j in (i + 1)..cells.len() {
                if cells[j] == (x + dx, y + dy) {
                    expected.push(j);
                }
            }
        }
        assert_eq!(got, expected, "heart {}", i);
    }
}

#[test]
fn generator_steps_like_wrapping_arithmetic() {
    let mut g = Lcg::new();
    let mut seed: u64 = 0;
    for nanos in [0u64, 123_456_789, 999_999_999, 5] {
        let bits = g.next_bits(nanos);
        seed = seed.wrapping_mul(6364136223846793005).wrapping_add(nanos ^ 1442695040888963407);
        assert_eq!(g.seed, seed);
        assert_eq!(bits as u64, seed >> 33);
        assert!(bits < 1 << 31);
    }
}

#[test]
fn first_step_from_zero_is_the_mix_constant() {
    let mut g = Lcg::new();
    let bits = g.next_bits(0);
    assert_eq!(g.seed, 1442695040888963407);
    assert_eq!(bits, (1442695040888963407u64 >> 33) as u32);
}
