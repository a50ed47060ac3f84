use minesweeper::grid::neighbours_of;
use minesweeper::{MineField, Minesweeper};

fn bare(width: usize, height: usize) -> Minesweeper {
    Minesweeper::with_field(MineField::new(width, height).unwrap())
}

#[test]
fn neighbours_of_an_inner_cell() {
    assert_eq!(
        neighbours_of(3, 3, (1, 1)),
        vec![(0, 0), (0, 1), (0, 2), (1, 0), (1, 2), (2, 0), (2, 1), (2, 2)]
    );
}

#[test]
fn neighbours_of_the_corners() {
    assert_eq!(neighbours_of(5, 4, (0, 0)), vec![(0, 1), (1, 0), (1, 1)]);
    assert_eq!(neighbours_of(5, 4, (4, 0)), vec![(3, 0), (3, 1), (4, 1)]);
    assert_eq!(neighbours_of(5, 4, (0, 3)), vec![(0, 2), (1, 2), (1, 3)]);
    assert_eq!(neighbours_of(5, 4, (4, 3)), vec![(3, 2), (3, 3), (4, 2)]);
}

#[test]
fn neighbours_of_the_border_cells() {
    assert_eq!(neighbours_of(5, 4, (2, 0)), vec![(1, 0), (1, 1), (2, 1), (3, 0), (3, 1)]);
    assert_eq!(neighbours_of(5, 4, (0, 2)), vec![(0, 1), (0, 3), (1, 1), (1, 2), (1, 3)]);
    assert_eq!(neighbours_of(5, 4, (4, 1)), vec![(3, 0), (3, 1), (3, 2), (4, 0), (4, 2)]);
    assert_eq!(neighbours_of(5, 4, (3, 3)), vec![(2, 2), (2, 3), (3, 2), (4, 2), (4, 3)]);
}

#[test]
fn neighbour_counts_by_place_on_the_board() {
    let (width, height) = (6, 4);
    for x in 0..width {
        for y in 0..height {
            let on_side = x == 0 || x == width - 1;
            let on_end = y == 0 || y == height - 1;
            let expected = if on_side && on_end {
                3
            } else if on_side || on_end {
                5
            } else {
                8
            };
            assert_eq!(neighbours_of(width, height, (x, y)).len(), expected);
        }
    }
}

#[test]
fn neighbours_stay_on_the_board_and_leave_the_cell_out() {
    let (width, height) = (4, 3);
    for x in 0..width {
        for y in 0..height {
            let around = neighbours_of(width, height, (x, y));
            for &(i, j) in &around {
                assert!(i < width && j < height);
                assert_ne!((i, j), (x, y));
                assert!(i.abs_diff(x) <= 1 && j.abs_diff(y) <= 1);
            }
            for i in 0..width {
                for j in 0..height {
                    let touches = (i, j) != (x, y) && i.abs_diff(x) <= 1 && j.abs_diff(y) <= 1;
                    assert_eq!(around.contains(&(i, j)), touches);
                }
            }
        }
    }
}

#[test]
fn neighbours_on_narrow_boards() {
    assert_eq!(neighbours_of(1, 1, (0, 0)), vec![]);
    assert_eq!(neighbours_of(1, 3, (0, 1)), vec![(0, 0), (0, 2)]);
    assert_eq!(neighbours_of(3, 1, (0, 0)), vec![(1, 0)]);
    assert_eq!(neighbours_of(2, 2, (1, 1)), vec![(0, 0), (0, 1), (1, 0)]);
}

#[test]
fn neighbours_of_a_cell_off_the_board() {
    assert_eq!(neighbours_of(3, 3, (3, 1)), vec![(2, 0), (2, 1), (2, 2)]);
    assert_eq!(neighbours_of(3, 3, (3, 3)), vec![(2, 2)]);
    assert_eq!(neighbours_of(3, 3, (5, 1)), vec![]);
    assert_eq!(neighbours_of(3, 3, (usize::MAX, usize::MAX)), vec![]);
    assert_eq!(neighbours_of(0, 0, (0, 0)), vec![]);
}

#[test]
fn neighbours_at_the_largest_coordinates() {
    let last = usize::MAX - 1;
    assert_eq!(
        neighbours_of(usize::MAX, usize::MAX, (last, last)),
        vec![(last - 1, last - 1), (last - 1, last), (last, last - 1)]
    );
}

#[test]
fn iter_neighbours_uses_the_size_of_the_board() {
    let game = bare(3, 4);
    assert_eq!(game.iter_neighbours((2, 3)), vec![(1, 2), (1, 3), (2, 2)]);
    assert_eq!(game.iter_neighbours((2, 2)), vec![(1, 1), (1, 2), (1, 3), (2, 1), (2, 3)]);
    assert_eq!(game.iter_neighbours((1, 1)).len(), 8);
}
