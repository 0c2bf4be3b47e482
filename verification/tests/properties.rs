use neutron::enums::{BoardError, Cell, Direction, GameError, Winner};
use neutron::game::{Game, Turn};
use neutron::grid::Board;

#[test]
fn construction_rejects_bad_sizes() {
    assert_eq!(Board::new(1).err(), Some(BoardError::SizeOfOne));
    assert_eq!(Board::new(0).err(), Some(BoardError::EvenSize));
    assert_eq!(Board::new(2).err(), Some(BoardError::EvenSize));
    assert_eq!(Board::new(4).err(), Some(BoardError::EvenSize));
    assert_eq!(Board::new(100).err(), Some(BoardError::EvenSize));
    assert_eq!(Game::new(1).err(), Some(BoardError::SizeOfOne));
    assert_eq!(Game::new(6).err(), Some(BoardError::EvenSize));
    assert!(Game::new(3).is_ok());
    assert!(Game::new(9).is_ok());
}

#[test]
fn fresh_boards_are_valid_with_centre_neutron() {
    let sizes: [usize; 4] = [3, 5, 7, 9];
    for &size in sizes.iter() {
        let board = Board::new(size).unwrap();
        assert!(board.is_valid());
        assert_eq!(board.get_size(), size);
        let centre = (size - 1) / 2;
        assert_eq!(board.get_neutron(), (centre, centre));
        assert_eq!(board.get((centre, centre)), Some(&Cell::Neutron));
        for x in 0..size {
            assert_eq!(board.get((x, 0)), Some(&Cell::Black));
            assert_eq!(board.get((x, size - 1)), Some(&Cell::White));
        }
    }
    let big = Board::new_big();
    assert!(big.is_valid());
    assert_eq!(big.get_size(), 7);
}

#[test]
fn zero_distance_move_changes_nothing() {
    let mut game = Game::new(5).unwrap();
    let untouched = Game::new(5).unwrap();
    // (0, 0) holds a black piece; up and right are immediately blocked.
    assert_eq!(game.move_piece((0, 0), Direction::Up), Err(GameError::DidNotMoved));
    assert_eq!(game.move_piece((0, 0), Direction::Right), Err(GameError::DidNotMoved));
    assert_eq!(game.move_piece((0, 0), Direction::UpLeft), Err(GameError::DidNotMoved));
    for y in 0..5 {
        for x in 0..5 {
            assert_eq!(game.get_board().get((x, y)), untouched.get_board().get((x, y)));
        }
    }
    assert_eq!(game.get_turn(), Turn::WhitePiece);
}

#[test]
fn moving_an_empty_cell_is_an_error() {
    let mut game = Game::new(5).unwrap();
    assert_eq!(game.move_piece((2, 3), Direction::Up), Err(GameError::TryToMoveEmptyCell));
    assert_eq!(game.move_piece((1, 1), Direction::Down), Err(GameError::TryToMoveEmptyCell));
}

#[test]
fn successful_move_relocates_exactly_one_piece() {
    let mut game = Game::new(5).unwrap();
    assert_eq!(game.move_piece((0, 0), Direction::Down), Ok(()));
    let board = game.get_board();
    // The origin is cleared and the destination holds what the origin held:
    // the black piece slid until the white piece at (0, 4) stopped it.
    assert_eq!(board.get((0, 0)), Some(&Cell::Empty));
    assert_eq!(board.get((0, 3)), Some(&Cell::Black));
    // No piece appeared or vanished.
    let mut white: usize = 0;
    let mut black: usize = 0;
    let mut neutron: usize = 0;
    for y in 0..5 {
        for x in 0..5 {
            match board.get((x, y)) {
                Some(&Cell::White) => white += 1,
                Some(&Cell::Black) => black += 1,
                Some(&Cell::Neutron) => neutron += 1,
                _ => {}
            }
        }
    }
    assert_eq!((white, black, neutron), (5, 5, 1));
    assert!(board.is_valid());
}

#[test]
fn slides_stop_at_first_obstruction_not_at_a_step_count() {
    let mut game = Game::new(5).unwrap();
    // The white piece at (4, 4) slides up and stops under the black row.
    assert_eq!(game.move_piece((4, 4), Direction::Up), Ok(()));
    assert_eq!(game.get_board().get((4, 1)), Some(&Cell::White));
    // Another white piece slides right into the vacated corner.
    assert_eq!(game.move_piece((3, 4), Direction::Right), Ok(()));
    assert_eq!(game.get_board().get((4, 4)), Some(&Cell::White));
    // Sliding the first piece back down no longer returns it to (4, 4):
    // it now stops one cell early, at the first occupied cell.
    assert_eq!(game.move_piece((4, 1), Direction::Down), Ok(()));
    assert_eq!(game.get_board().get((4, 3)), Some(&Cell::White));
    assert_eq!(game.get_board().get((4, 4)), Some(&Cell::White));
}

#[test]
fn fresh_classic_game_has_no_winner() {
    let game = Game::new_classic();
    assert_eq!(game.game_state(), None);
    assert_eq!(game.get_board().game_state(), None);
}

#[test]
fn blocked_neutron_resolves_only_on_neutron_turns() {
    let mut game = Game::new(5).unwrap();
    // Walk the neutron to the left edge and wall it in with white pieces.
    assert_eq!(game.move_piece((2, 2), Direction::Up), Ok(()));
    assert_eq!(game.get_board().get_neutron(), (2, 1));
    assert_eq!(game.move_piece((2, 1), Direction::Left), Ok(()));
    assert_eq!(game.get_board().get_neutron(), (0, 1));
    assert_eq!(game.move_piece((1, 4), Direction::Up), Ok(()));
    assert_eq!(game.move_piece((0, 4), Direction::Up), Ok(()));
    assert_eq!(game.move_piece((4, 4), Direction::UpLeft), Ok(()));
    assert_eq!(game.move_piece((2, 2), Direction::Left), Ok(()));
    assert!(game.get_board().is_neutron_blocked());
    assert_eq!(game.get_board().game_state(), Some(Winner::NeutronIsBlocked));
    // On a piece turn the blocked signal is not yet decisive.
    assert_eq!(game.get_turn(), Turn::WhitePiece);
    assert_eq!(game.game_state(), None);
    // Blocked on black's neutron turn: white wins.
    game.advance_turn();
    assert_eq!(game.get_turn(), Turn::BlackNeutron);
    assert_eq!(game.game_state(), Some(Winner::White));
    game.advance_turn();
    assert_eq!(game.get_turn(), Turn::BlackPiece);
    assert_eq!(game.game_state(), None);
    // Blocked on white's neutron turn: black wins.
    game.advance_turn();
    assert_eq!(game.get_turn(), Turn::WhiteNeutron);
    assert_eq!(game.game_state(), Some(Winner::Black));
}

#[test]
fn neutron_blocked_checks_only_in_bounds_neighbours() {
    let mut board = Board::new(3).unwrap();
    // Fresh 3 by 3 board: the two side cells next to the neutron are open.
    assert!(!board.is_neutron_blocked());
    board.set((0, 1), Cell::White);
    board.set((2, 1), Cell::White);
    // Now every one of the eight neighbours is occupied.
    assert!(board.is_neutron_blocked());
    // Put the neutron in a corner: the five off-board neighbour slots are
    // simply absent from the check, not counted as open.
    let mut corner = Board::new(3).unwrap();
    corner.set((1, 1), Cell::Empty);
    corner.set((0, 0), Cell::Neutron);
    assert_eq!(corner.get_neutron(), (0, 0));
    assert!(!corner.is_neutron_blocked());
    corner.set((0, 1), Cell::White);
    corner.set((1, 1), Cell::White);
    assert!(corner.is_neutron_blocked());
}

#[test]
fn validity_check_counts_pieces_exactly() {
    let mut board = Board::new(5).unwrap();
    assert!(board.is_valid());
    // A second neutron is a corruption signal.
    board.set((1, 2), Cell::Neutron);
    assert!(!board.is_valid());
    // One neutron but a missing white piece fails too.
    board.set((1, 2), Cell::Empty);
    board.set((0, 4), Cell::Empty);
    assert!(!board.is_valid());
    board.set((0, 4), Cell::White);
    assert!(board.is_valid());
    // A vanished neutron fails the check.
    board.set((2, 2), Cell::Empty);
    assert!(!board.is_valid());
}

#[test]
fn turns_cycle_in_fixed_order() {
    let mut game = Game::new_classic();
    assert_eq!(game.get_turn(), Turn::WhitePiece);
    game.advance_turn();
    assert_eq!(game.get_turn(), Turn::BlackNeutron);
    game.advance_turn();
    assert_eq!(game.get_turn(), Turn::BlackPiece);
    game.advance_turn();
    assert_eq!(game.get_turn(), Turn::WhiteNeutron);
    game.advance_turn();
    assert_eq!(game.get_turn(), Turn::WhitePiece);
}

#[test]
fn selection_takes_only_own_pieces() {
    let mut game = Game::new_classic();
    assert_eq!(game.get_turn(), Turn::WhitePiece);
    assert!(game.can_select((0, 4)));
    assert!(!game.can_select((0, 0)));
    assert!(!game.can_select((2, 2)));
    assert!(!game.can_select((1, 1)));
    assert!(!game.can_select((7, 7)));
    game.advance_turn();
    game.advance_turn();
    assert_eq!(game.get_turn(), Turn::BlackPiece);
    assert!(game.can_select((0, 0)));
    assert!(!game.can_select((0, 4)));
}

#[test]
fn accessors_read_cells_and_bounds() {
    let board = Board::new_classic();
    assert_eq!(board.get((0, 0)), Some(&Cell::Black));
    assert_eq!(board.get((4, 4)), Some(&Cell::White));
    assert_eq!(board.get((2, 2)), Some(&Cell::Neutron));
    assert_eq!(board.get((3, 2)), Some(&Cell::Empty));
    assert_eq!(board.get((5, 0)), None);
    assert_eq!(board.get((0, 5)), None);
    assert_eq!(*board.get_unchecked((0, 0)), Cell::Black);
    assert_eq!(*board.get_unchecked((2, 2)), Cell::Neutron);
    assert_eq!(board.get_size(), 5);
}
