use neutron::enums::{Direction, Winner};
use neutron::game::Game;
use neutron::grid::Board;

#[test]
fn classic_board_valid() {
    let board = Board::new_classic();
    assert!(board.is_valid());
}

#[test]
fn white_wins() -> Result<(), String> {
    let mut game = Game::new(5).unwrap();
    let _ = game.move_piece((0, 0), Direction::Down);
    assert!(game.game_state() == None);
    let _ = game.move_piece((2, 2), Direction::UpLeft);
    assert_eq!(game.game_state(), Some(Winner::White));
    Ok(())
}

#[test]
fn black_wins() -> Result<(), String> {
    let mut game = Game::new(5).unwrap();
    let _ = game.move_piece((4, 4), Direction::Up);
    assert!(game.game_state() == None);
    let _ = game.move_piece((2, 2), Direction::DownRight);
    assert_eq!(game.game_state(), Some(Winner::Black));
    Ok(())
}

#[test]
fn neutron_blocked_win() -> Result<(), String> {
    let mut game = Game::new(5).unwrap();
    let _ = game.move_piece((0, 0), Direction::Down);
    let _ = game.move_piece((2, 2), Direction::UpLeft);
    assert_eq!(game.game_state(), Some(Winner::White));
    Ok(())
}

#[test]
fn char_test() {
    println!("{}", 65 as u8 as char);
}

#[test]
#[should_panic(expected = "RAAAAH")]
fn it_dont_work() {
    panic!("RAAAAH");
}
