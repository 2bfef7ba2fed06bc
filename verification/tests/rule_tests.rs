use fhe_life::rule::{next_cell, plain_neighbor_count, plain_step};

/// Independent plaintext reference for the survival rule, written as an
/// explicit truth table over the nine counts and two cell states.
fn reference_rule(cell: u64, count: u64) -> u64 {
    let dead_next: [u64; 9] = [0, 0, 0, 1, 0, 0, 0, 0, 0];
    let live_next: [u64; 9] = [0, 0, 1, 1, 0, 0, 0, 0, 0];
    if cell == 0 {
        dead_next[count as usize]
    } else {
        live_next[count as usize]
    }
}

/// Independent single-step reference on a toroidal grid.
fn reference_step(g: &[u64], rows: usize, cols: usize) -> Vec<u64> {
    let mut out = Vec::new();
    for i in 0..rows {
        for j in 0..cols {
            let im = (i + rows - 1) % rows;
            let ip = (i + 1) % rows;
            let jm = (j + cols - 1) % cols;
            let jp = (j + 1) % cols;
            let count = g[im * cols + jm] + g[im * cols + j] + g[im * cols + jp] + g[i * cols + jm]
                + g[i * cols + jp] + g[ip * cols + jm] + g[ip * cols + j] + g[ip * cols + jp];
            out.push(reference_rule(g[i * cols + j], count));
        }
    }
    out
}

#[test]
fn rule_exhaustive() {
    for cell in 0..=1u64 {
        for count in 0..=8u64 {
            assert_eq!(next_cell(cell, count), reference_rule(cell, count));
        }
    }
}

#[test]
fn corner_counts_far_corner() {
    // Only the far corner (3, 4) of a 4x5 board is alive: the corner (0, 0)
    // must count it as a neighbor through the toroidal wrap.
    let mut g = vec![0u64; 4 * 5];
    g[3 * 5 + 4] = 1;
    assert_eq!(plain_neighbor_count(&g, 4, 5, 0, 0), 1);
}

#[test]
fn all_alive_small_board_counts() {
    let g = vec![1u64; 3 * 3];
    for i in 0..3 {
        for j in 0..3 {
            assert_eq!(plain_neighbor_count(&g, 3, 3, i, j), 8);
        }
    }
}

#[test]
fn wrapped_neighbor_affects_survival_like_adjacent() {
    // A live corner with one adjacent live cell and one wrapped live
    // neighbor survives with two neighbors ...
    let mut wrapped = vec![0u64; 4 * 4];
    wrapped[0] = 1;
    wrapped[1] = 1;
    wrapped[3 * 4 + 3] = 1;
    let next_wrapped = plain_step(&wrapped, 4, 4);
    assert_eq!(next_wrapped[0], 1);

    // ... exactly as it does when that neighbor is placed adjacently instead.
    let mut adjacent = vec![0u64; 4 * 4];
    adjacent[0] = 1;
    adjacent[1] = 1;
    adjacent[4 + 1] = 1;
    let next_adjacent = plain_step(&adjacent, 4, 4);
    assert_eq!(next_adjacent[0], next_wrapped[0]);

    // Without the wrapped neighbor the corner is underpopulated and dies.
    let mut alone = vec![0u64; 4 * 4];
    alone[0] = 1;
    alone[1] = 1;
    let next_alone = plain_step(&alone, 4, 4);
    assert_eq!(next_alone[0], 0);
}

#[test]
fn extinction_is_stable() {
    let mut g = vec![0u64; 5 * 4];
    for _ in 0..3 {
        g = plain_step(&g, 5, 4);
        assert!(g.iter().all(|&v| v == 0));
    }
}

#[test]
fn block_is_still_life() {
    let mut g = vec![0u64; 4 * 4];
    for (i, j) in [(1, 1), (1, 2), (2, 1), (2, 2)] {
        g[i * 4 + j] = 1;
    }
    let next = plain_step(&g, 4, 4);
    assert_eq!(next, g);

    let mut h = vec![0u64; 6 * 6];
    for (i, j) in [(2, 3), (2, 4), (3, 3), (3, 4)] {
        h[i * 6 + j] = 1;
    }
    let next_h = plain_step(&h, 6, 6);
    assert_eq!(next_h, h);
}

#[test]
fn known_six_by_six_one_generation() {
    let mut g = vec![0u64; 6 * 6];
    for (i, j) in [(0, 0), (1, 1), (1, 2), (2, 0), (2, 1)] {
        g[i * 6 + j] = 1;
    }
    let next = plain_step(&g, 6, 6);
    // Precomputed by hand from the standard rule under periodic boundaries.
    let expected: Vec<u64> = vec![
        0, 1, 0, 0, 0, 0,
        0, 0, 1, 0, 0, 0,
        1, 1, 1, 0, 0, 0,
        0, 0, 0, 0, 0, 0,
        0, 0, 0, 0, 0, 0,
        0, 0, 0, 0, 0, 0,
    ];
    assert_eq!(next, expected);
}

#[test]
fn plain_step_matches_reference_on_random_like_grid() {
    // A fixed, irregular 5x6 grid exercises every wrap direction at once.
    let g: Vec<u64> = vec![
        1, 0, 0, 1, 0, 1,
        0, 1, 1, 0, 0, 0,
        1, 0, 0, 0, 1, 0,
        0, 0, 1, 1, 0, 0,
        1, 1, 0, 0, 0, 1,
    ];
    assert_eq!(plain_step(&g, 5, 6), reference_step(&g, 5, 6));
}
