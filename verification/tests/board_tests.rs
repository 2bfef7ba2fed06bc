use fhe_life::board::{neighbor_positions, Board};
use fhe_life::fhe::Cell;
use fhe_life::LifeError;

#[test]
fn corner_neighbors_wrap_to_far_corner() {
    // On a 4x5 board the corner (0, 0) must have the far corner (3, 4) among
    // its neighbors, along with the other seven wrapped positions.
    let positions = neighbor_positions(4, 5, 0, 0);
    assert!(positions.contains(&(3 * 5 + 4)));
    assert_eq!(
        positions,
        vec![
            3 * 5 + 4,
            3 * 5,
            3 * 5 + 1,
            4,
            1,
            5 + 4,
            5,
            5 + 1
        ]
    );
}

#[test]
fn interior_neighbors_do_not_wrap() {
    let positions = neighbor_positions(4, 5, 2, 2);
    assert_eq!(
        positions,
        vec![
            5 + 1,
            5 + 2,
            5 + 3,
            2 * 5 + 1,
            2 * 5 + 3,
            3 * 5 + 1,
            3 * 5 + 2,
            3 * 5 + 3
        ]
    );
}

#[test]
fn zero_columns_is_a_dimension_mismatch() {
    let cells: Vec<Cell> = Vec::new();
    match Board::new(0, cells) {
        Err(e) => assert_eq!(e, LifeError::DimensionMismatch),
        Ok(_) => panic!("a zero-column board must be rejected"),
    }
}

#[test]
fn empty_state_fills_whole_rows() {
    let cells: Vec<Cell> = Vec::new();
    match Board::new(3, cells) {
        Ok(b) => {
            assert_eq!(b.rows(), 0);
            assert_eq!(b.cols(), 3);
        },
        Err(_) => panic!("an empty sequence divides evenly into any width"),
    }
}
