use neutron::enums::{Direction, GameIOError};
use neutron::game_io::GameIO;

#[test]
fn coordinate_syntax_is_judged_exactly() {
    assert!(GameIO::is_coordinates_valid(&String::from("A1")));
    assert!(GameIO::is_coordinates_valid(&String::from("a3")));
    assert!(GameIO::is_coordinates_valid(&String::from("E5")));
    assert!(GameIO::is_coordinates_valid(&String::from("Z99")));
    assert!(GameIO::is_coordinates_valid(&String::from("C12")));
    assert!(!GameIO::is_coordinates_valid(&String::from("")));
    assert!(!GameIO::is_coordinates_valid(&String::from("A")));
    assert!(!GameIO::is_coordinates_valid(&String::from("A0")));
    assert!(!GameIO::is_coordinates_valid(&String::from("1A")));
    assert!(!GameIO::is_coordinates_valid(&String::from("AA")));
    assert!(!GameIO::is_coordinates_valid(&String::from("A1x")));
    assert!(!GameIO::is_coordinates_valid(&String::from(" A1")));
}

#[test]
fn direction_syntax_is_judged_exactly() {
    assert!(GameIO::is_direction_valid(&String::from("1")));
    assert!(GameIO::is_direction_valid(&String::from("5")));
    assert!(GameIO::is_direction_valid(&String::from("8")));
    assert!(!GameIO::is_direction_valid(&String::from("0")));
    assert!(!GameIO::is_direction_valid(&String::from("9")));
    assert!(!GameIO::is_direction_valid(&String::from("42")));
    assert!(!GameIO::is_direction_valid(&String::from("")));
    assert!(!GameIO::is_direction_valid(&String::from("x")));
}

#[test]
fn positions_decode_to_zero_based_pairs() {
    assert_eq!(GameIO::get_position_from_input(&String::from("A1")), (0, 0));
    assert_eq!(GameIO::get_position_from_input(&String::from("a1")), (0, 0));
    assert_eq!(GameIO::get_position_from_input(&String::from("B2")), (1, 1));
    assert_eq!(GameIO::get_position_from_input(&String::from("b2")), (1, 1));
    assert_eq!(GameIO::get_position_from_input(&String::from("E5")), (4, 4));
    assert_eq!(GameIO::get_position_from_input(&String::from("C12")), (2, 11));
    assert_eq!(GameIO::get_position_from_input(&String::from("z100")), (25, 99));
}

#[test]
fn directions_decode_by_the_fixed_numbering() {
    assert_eq!(GameIO::get_direction_from_input(&String::from("1")), Ok(Direction::Up));
    assert_eq!(GameIO::get_direction_from_input(&String::from("2")), Ok(Direction::UpRight));
    assert_eq!(GameIO::get_direction_from_input(&String::from("3")), Ok(Direction::Right));
    assert_eq!(GameIO::get_direction_from_input(&String::from("4")), Ok(Direction::DownRight));
    assert_eq!(GameIO::get_direction_from_input(&String::from("5")), Ok(Direction::Down));
    assert_eq!(GameIO::get_direction_from_input(&String::from("6")), Ok(Direction::DownLeft));
    assert_eq!(GameIO::get_direction_from_input(&String::from("7")), Ok(Direction::Left));
    assert_eq!(GameIO::get_direction_from_input(&String::from("8")), Ok(Direction::UpLeft));
    assert_eq!(
        GameIO::get_direction_from_input(&String::from("9")),
        Err(GameIOError::InvalidDirection)
    );
    assert_eq!(
        GameIO::get_direction_from_input(&String::from("")),
        Err(GameIOError::InvalidDirection)
    );
    assert_eq!(
        GameIO::get_direction_from_input(&String::from("11")),
        Err(GameIOError::InvalidDirection)
    );
}

#[test]
fn displacements_match_the_compass() {
    assert_eq!(Direction::Up.displacement(), (0, -1));
    assert_eq!(Direction::UpRight.displacement(), (1, -1));
    assert_eq!(Direction::Right.displacement(), (1, 0));
    assert_eq!(Direction::DownRight.displacement(), (1, 1));
    assert_eq!(Direction::Down.displacement(), (0, 1));
    assert_eq!(Direction::DownLeft.displacement(), (-1, 1));
    assert_eq!(Direction::Left.displacement(), (-1, 0));
    assert_eq!(Direction::UpLeft.displacement(), (-1, -1));
}
