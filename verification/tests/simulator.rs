use fhe_life::grid::{Grid, GridError};
use fhe_life::life::{grid_after_steps, next_generation};

fn grid(rows: Vec<Vec<u8>>) -> Grid {
    Grid::from_cells(rows).unwrap()
}

#[test]
fn from_cells_rejects_no_rows() {
    let r = Grid::from_cells(vec![]);
    assert_eq!(r.unwrap_err(), GridError::BadDimensions);
}

#[test]
fn from_cells_rejects_empty_row() {
    let r = Grid::from_cells(vec![vec![]]);
    assert_eq!(r.unwrap_err(), GridError::BadDimensions);
}

#[test]
fn from_cells_rejects_ragged_rows() {
    let r = Grid::from_cells(vec![vec![0, 1], vec![1]]);
    assert_eq!(r.unwrap_err(), GridError::BadDimensions);
}

#[test]
fn from_cells_rejects_cell_out_of_range() {
    let r = Grid::from_cells(vec![vec![0, 1], vec![1, 2]]);
    assert_eq!(r.unwrap_err(), GridError::BadCell);
}

#[test]
fn from_cells_accepts_well_formed() {
    let g = grid(vec![vec![0, 1], vec![1, 0]]);
    assert_eq!(g.to_rows(), vec![vec![0, 1], vec![1, 0]]);
    assert_eq!(g.rows(), 2);
    assert_eq!(g.cols(), 2);
    assert_eq!(g.cell(0, 1), 1);
}

#[test]
fn random_grid_is_well_formed() {
    let g = Grid::random(3, 5);
    let rows = g.to_rows();
    assert_eq!(rows.len(), 3);
    for row in rows {
        assert_eq!(row.len(), 5);
        for c in row {
            assert!(c <= 1);
        }
    }
}

#[test]
fn single_live_center_dies() {
    let g = grid(vec![vec![0, 0, 0], vec![0, 1, 0], vec![0, 0, 0]]);
    let after = grid_after_steps(&g, 1);
    assert_eq!(after.to_rows(), vec![vec![0, 0, 0], vec![0, 0, 0], vec![0, 0, 0]]);
}

#[test]
fn blinker_oscillates() {
    let g = grid(vec![vec![0, 0, 0], vec![1, 1, 1], vec![0, 0, 0]]);
    let one = grid_after_steps(&g, 1);
    assert_eq!(one.to_rows(), vec![vec![0, 1, 0], vec![0, 1, 0], vec![0, 1, 0]]);
    let two = grid_after_steps(&g, 2);
    assert_eq!(two.to_rows(), vec![vec![0, 0, 0], vec![1, 1, 1], vec![0, 0, 0]]);
}

#[test]
fn all_dead_stays_dead() {
    let g = grid(vec![vec![0, 0, 0, 0, 0]; 4]);
    let after = grid_after_steps(&g, 7);
    assert_eq!(after.to_rows(), vec![vec![0, 0, 0, 0, 0]; 4]);
}

#[test]
fn one_by_one_always_dies() {
    let g = grid(vec![vec![1]]);
    assert_eq!(next_generation(&g).to_rows(), vec![vec![0]]);
    let d = grid(vec![vec![0]]);
    assert_eq!(next_generation(&d).to_rows(), vec![vec![0]]);
}

#[test]
fn step_is_deterministic() {
    let g = grid(vec![vec![1, 0, 1], vec![0, 1, 1], vec![1, 1, 0]]);
    let a = next_generation(&g);
    let b = next_generation(&g);
    assert_eq!(a.to_rows(), b.to_rows());
}

#[test]
fn zero_steps_is_identity() {
    let g = grid(vec![vec![1, 0], vec![0, 1]]);
    let after = grid_after_steps(&g, 0);
    assert_eq!(after.to_rows(), vec![vec![1, 0], vec![0, 1]]);
}

#[test]
fn glider_step_matches_hand_computation() {
    let g = grid(vec![
        vec![0, 1, 0, 0],
        vec![0, 0, 1, 0],
        vec![1, 1, 1, 0],
        vec![0, 0, 0, 0],
    ]);
    let after = grid_after_steps(&g, 1);
    assert_eq!(
        after.to_rows(),
        vec![
            vec![0, 0, 0, 0],
            vec![1, 0, 1, 0],
            vec![0, 1, 1, 0],
            vec![0, 1, 0, 0],
        ]
    );
}
