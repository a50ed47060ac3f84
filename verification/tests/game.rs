use minesweeper::{BoardError, MineField, Minesweeper, OpenResult, Position};

fn board_with(width: usize, height: usize, mines: &[Position]) -> Minesweeper {
    let mut field = MineField::new(width, height).unwrap();
    for &cell in mines {
        assert_eq!(field.place(cell), Some(cell));
    }
    Minesweeper::with_field(field)
}

fn counts(game: &Minesweeper) -> Vec<u8> {
    let mut all = Vec::new();
    for x in 0..game.width() {
        for y in 0..game.height() {
            all.push(game.count_mines((x, y)));
        }
    }
    all
}

fn mines_on_board(game: &Minesweeper) -> usize {
    let mut found = 0;
    for x in 0..game.width() {
        for y in 0..game.height() {
            if game.is_mine((x, y)) {
                found += 1;
            }
        }
    }
    found
}

#[test]
fn test() {
    let mut ms = Minesweeper::new(5, 5, 5);

    ms.open((2, 2));
    ms.toggle_flag((3, 3));

    println!("{}", ms.render());
}

#[test]
fn new_places_the_requested_number_of_mines() {
    for &(width, height, count) in &[(5, 5, 5), (1, 1, 0), (3, 3, 8), (10, 2, 19), (4, 7, 0)] {
        let game = Minesweeper::new(width, height, count);
        assert_eq!(game.width(), width);
        assert_eq!(game.height(), height);
        assert_eq!(game.mine_count(), count);
        assert_eq!(mines_on_board(&game), count);
    }
}

#[test]
fn new_game_has_nothing_opened_or_flagged() {
    let game = Minesweeper::new(4, 3, 6);
    for x in 0..4 {
        for y in 0..3 {
            assert!(!game.is_open((x, y)));
            assert!(!game.is_flagged((x, y)));
        }
    }
}

#[test]
fn random_mines_stay_on_a_single_column() {
    let game = Minesweeper::new(1, 6, 5);
    assert_eq!(mines_on_board(&game), 5);
}

#[test]
fn try_new_rejects_a_board_without_cells() {
    assert_eq!(Minesweeper::try_new(0, 3, 0).unwrap_err(), BoardError::EmptyBoard);
    assert_eq!(Minesweeper::try_new(3, 0, 1).unwrap_err(), BoardError::EmptyBoard);
    assert_eq!(Minesweeper::try_new(0, 0, 0).unwrap_err(), BoardError::EmptyBoard);
}

#[test]
fn try_new_rejects_mines_that_leave_no_cell_free() {
    assert_eq!(Minesweeper::try_new(3, 3, 9).unwrap_err(), BoardError::ImpossibleMineDensity);
    assert_eq!(Minesweeper::try_new(3, 3, 10).unwrap_err(), BoardError::ImpossibleMineDensity);
    assert_eq!(Minesweeper::try_new(1, 1, 1).unwrap_err(), BoardError::ImpossibleMineDensity);
    assert_eq!(Minesweeper::try_new(2, 2, 4).unwrap_err(), BoardError::ImpossibleMineDensity);
    assert_eq!(
        Minesweeper::try_new(1, usize::MAX, usize::MAX).unwrap_err(),
        BoardError::ImpossibleMineDensity
    );
}

#[test]
fn try_new_makes_the_board_when_a_cell_stays_free() {
    let game = Minesweeper::try_new(3, 3, 8).unwrap();
    assert_eq!(game.mine_count(), 8);
    assert_eq!(mines_on_board(&game), 8);
    let bare = Minesweeper::try_new(2, 5, 0).unwrap();
    assert_eq!(bare.mine_count(), 0);
}

#[test]
fn count_mines_counts_the_eight_surrounding_cells() {
    let game = board_with(5, 5, &[(0, 0), (4, 4)]);
    assert_eq!(game.count_mines((1, 1)), 1);
    assert_eq!(game.count_mines((3, 3)), 1);
    assert_eq!(game.count_mines((0, 0)), 0);
    assert_eq!(game.count_mines((0, 4)), 0);
    assert_eq!(game.count_mines((2, 2)), 0);
    assert_eq!(game.count_mines((0, 1)), 1);
    assert_eq!(game.count_mines((1, 0)), 1);
    assert_eq!(game.count_mines((4, 3)), 1);
}

#[test]
fn count_mines_sees_both_mines_from_the_cell_between_them() {
    let game = board_with(3, 3, &[(0, 0), (2, 2)]);
    assert_eq!(game.count_mines((1, 1)), 2);
}

#[test]
fn count_mines_reaches_eight() {
    let around = [(0, 0), (0, 1), (0, 2), (1, 0), (1, 2), (2, 0), (2, 1), (2, 2)];
    let game = board_with(3, 3, &around);
    assert_eq!(game.count_mines((1, 1)), 8);
    assert_eq!(game.count_mines((0, 0)), 2);
}

#[test]
fn count_mines_does_not_depend_on_moves() {
    let mut game = board_with(4, 4, &[(1, 1), (2, 1)]);
    let before = counts(&game);
    game.open((0, 0));
    game.open((1, 1));
    game.toggle_flag((2, 1));
    game.toggle_flag((3, 3));
    assert_eq!(counts(&game), before);
    assert_eq!(game.count_mines((1, 0)), 2);
}

#[test]
fn count_mines_matches_the_mines_among_the_neighbours() {
    let game = Minesweeper::new(6, 5, 12);
    for x in 0..6 {
        for y in 0..5 {
            let around = game.iter_neighbours((x, y));
            let expected = around.into_iter().filter(|&q| game.is_mine(q)).count();
            assert_eq!(game.count_mines((x, y)) as usize, expected);
        }
    }
}

#[test]
fn open_finds_the_mine_each_time() {
    let mut game = board_with(5, 5, &[(3, 3)]);
    assert_eq!(game.open((3, 3)), Some(OpenResult::Mine));
    assert!(game.is_open((3, 3)));
    assert_eq!(game.open((3, 3)), Some(OpenResult::Mine));
    assert!(game.is_open((3, 3)));
    for x in 0..5 {
        for y in 0..5 {
            assert_eq!(game.is_open((x, y)), (x, y) == (3, 3));
        }
    }
}

#[test]
fn open_tells_the_number_of_mines_around() {
    let mut game = board_with(5, 5, &[(0, 0), (1, 0), (4, 4)]);
    assert_eq!(game.open((1, 1)), Some(OpenResult::NoMine(2)));
    assert_eq!(game.open((0, 1)), Some(OpenResult::NoMine(2)));
    assert_eq!(game.open((2, 2)), Some(OpenResult::NoMine(0)));
    assert_eq!(game.open((3, 4)), Some(OpenResult::NoMine(1)));
}

#[test]
fn open_twice_is_open_once() {
    let mut once = board_with(4, 4, &[(1, 2)]);
    let mut twice = board_with(4, 4, &[(1, 2)]);
    let first = once.open((2, 2));
    twice.open((2, 2));
    let second = twice.open((2, 2));
    assert_eq!(first, Some(OpenResult::NoMine(1)));
    assert_eq!(second, first);
    for x in 0..4 {
        for y in 0..4 {
            assert_eq!(once.is_open((x, y)), twice.is_open((x, y)));
            assert_eq!(once.is_flagged((x, y)), twice.is_flagged((x, y)));
        }
    }
}

#[test]
fn open_does_not_spread_to_neighbours() {
    let mut game = board_with(4, 4, &[(3, 3)]);
    assert_eq!(game.open((0, 0)), Some(OpenResult::NoMine(0)));
    assert!(!game.is_open((0, 1)));
    assert!(!game.is_open((1, 0)));
    assert!(!game.is_open((1, 1)));
}

#[test]
fn open_turns_down_a_cell_off_the_board() {
    let mut game = board_with(3, 2, &[(0, 0)]);
    assert_eq!(game.open((3, 0)), None);
    assert_eq!(game.open((0, 2)), None);
    assert_eq!(game.open((usize::MAX, usize::MAX)), None);
    assert!(!game.is_open((3, 0)));
    assert!(!game.is_open((0, 2)));
}

#[test]
fn toggle_flag_twice_restores_the_cell() {
    let mut game = board_with(3, 3, &[(1, 1)]);
    assert!(!game.is_flagged((2, 0)));
    game.toggle_flag((2, 0));
    assert!(game.is_flagged((2, 0)));
    game.toggle_flag((2, 0));
    assert!(!game.is_flagged((2, 0)));
    game.toggle_flag((1, 1));
    game.toggle_flag((2, 0));
    game.toggle_flag((2, 0));
    assert!(game.is_flagged((1, 1)));
    assert!(!game.is_flagged((2, 0)));
}

#[test]
fn toggle_flag_leaves_an_opened_cell_alone() {
    let mut game = board_with(3, 3, &[(1, 1)]);
    assert_eq!(game.open((0, 0)), Some(OpenResult::NoMine(1)));
    game.toggle_flag((0, 0));
    assert!(!game.is_flagged((0, 0)));
    assert!(game.is_open((0, 0)));
    game.toggle_flag((0, 0));
    assert!(!game.is_flagged((0, 0)));
}

#[test]
fn open_turns_down_a_flagged_cell() {
    let mut game = board_with(3, 3, &[(1, 1)]);
    game.toggle_flag((1, 1));
    assert!(game.is_flagged((1, 1)));
    assert_eq!(game.open((1, 1)), None);
    assert!(!game.is_open((1, 1)));
    assert!(game.is_flagged((1, 1)));
    game.toggle_flag((1, 1));
    assert_eq!(game.open((1, 1)), Some(OpenResult::Mine));
    assert!(game.is_open((1, 1)));
}

#[test]
fn toggle_flag_ignores_a_cell_off_the_board() {
    let mut game = board_with(3, 3, &[]);
    game.toggle_flag((3, 3));
    game.toggle_flag((0, 7));
    assert!(!game.is_flagged((3, 3)));
    assert!(!game.is_flagged((0, 7)));
}

#[test]
fn has_tells_the_cells_of_the_board() {
    let game = board_with(3, 4, &[]);
    assert!(game.has((0, 0)));
    assert!(game.has((2, 3)));
    assert!(!game.has((3, 3)));
    assert!(!game.has((2, 4)));
    assert!(!game.has((3, 0)));
}

#[test]
fn with_field_keeps_the_mines() {
    let game = board_with(4, 2, &[(3, 1), (0, 0)]);
    assert_eq!(game.width(), 4);
    assert_eq!(game.height(), 2);
    assert_eq!(game.mine_count(), 2);
    assert!(game.is_mine((3, 1)));
    assert!(game.is_mine((0, 0)));
    assert!(!game.is_mine((1, 1)));
    assert!(!game.is_mine((1, 3)));
}
