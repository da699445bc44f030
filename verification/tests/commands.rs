use spacemines::choice::{coordinate_from, parse_choice, Action, Choice, ChoiceError};
use spacemines::field::tile::Coordintes;

fn choice(x: u8, y: u8, action: Action) -> Result<Choice, ChoiceError> {
    Ok(Choice { coords: Coordintes { x, y }, action })
}

#[test]
fn commands_count_columns_and_rows_from_one() {
    assert_eq!(parse_choice("1,1,r"), choice(0, 0, Action::Reveal));
    assert_eq!(parse_choice("9,3,f"), choice(8, 2, Action::Flag));
    assert_eq!(parse_choice("2,5,?"), choice(1, 4, Action::Unknown));
    assert_eq!(parse_choice("9,9,r"), choice(8, 8, Action::Reveal));
}

#[test]
fn cheat_asks_for_the_uncovered_board() {
    assert_eq!(parse_choice("cheat"), choice(0, 0, Action::Cheat));
    assert_eq!(parse_choice("cheap"), Err(ChoiceError::NotSeparated));
    assert_eq!(parse_choice("cheats"), Err(ChoiceError::TooShort));
}

#[test]
fn a_command_has_five_bytes() {
    for text in ["", "1", "1,1", "1,1,", "1,1,rr", "10,1,r", "q", "\u{e9},1,r"] {
        assert_eq!(parse_choice(text), Err(ChoiceError::TooShort));
    }
}

#[test]
fn a_command_is_separated_by_commas() {
    for text in ["1;1,r", "1,1;r", "1 1 r", "11111", ",1,1r", "1,\u{20ac}", "\u{e9}1,r"] {
        assert_eq!(text.len(), 5);
        assert_eq!(parse_choice(text), Err(ChoiceError::NotSeparated));
    }
}

#[test]
fn column_and_row_are_digits() {
    assert_eq!(parse_choice("a,1,r"), Err(ChoiceError::NotANumber));
    assert_eq!(parse_choice("1,b,r"), Err(ChoiceError::NotANumber));
    assert_eq!(parse_choice(" ,1,r"), Err(ChoiceError::NotANumber));
    assert_eq!(parse_choice("1,,,r"), Err(ChoiceError::NotANumber));
}

#[test]
fn column_and_row_zero_are_off_the_grid() {
    assert_eq!(parse_choice("0,1,r"), Err(ChoiceError::OutsideGrid));
    assert_eq!(parse_choice("1,0,f"), Err(ChoiceError::OutsideGrid));
    assert_eq!(parse_choice("+,1,r"), Err(ChoiceError::OutsideGrid));
    assert_eq!(parse_choice("1,-,r"), Err(ChoiceError::OutsideGrid));
}

#[test]
fn the_action_is_one_of_three_letters() {
    for text in ["1,1,x", "1,1,R", "1,1,F", "1,1, ", "1,1,1"] {
        assert_eq!(parse_choice(text), Err(ChoiceError::UnknownAction));
    }
}

#[test]
fn the_first_fault_is_reported() {
    assert_eq!(parse_choice("a;0,x"), Err(ChoiceError::NotSeparated));
    assert_eq!(parse_choice("a,0,x"), Err(ChoiceError::NotANumber));
    assert_eq!(parse_choice("0,a,x"), Err(ChoiceError::OutsideGrid));
    assert_eq!(parse_choice("1,a,x"), Err(ChoiceError::NotANumber));
    assert_eq!(parse_choice("1,0,x"), Err(ChoiceError::OutsideGrid));
}

#[test]
fn a_number_read_becomes_a_position() {
    assert_eq!(coordinate_from(None), Err(ChoiceError::NotANumber));
    assert_eq!(coordinate_from(Some(0)), Err(ChoiceError::OutsideGrid));
    assert_eq!(coordinate_from(Some(1)), Ok(0));
    assert_eq!(coordinate_from(Some(9)), Ok(8));
    assert_eq!(coordinate_from(Some(255)), Ok(254));
}

#[test]
fn command_faults_have_messages() {
    assert_eq!(ChoiceError::TooShort.message(), "input too short");
    assert_eq!(ChoiceError::NotSeparated.message(), "not separated properly");
    assert_eq!(ChoiceError::NotANumber.message(), "NaN");
    assert_eq!(ChoiceError::OutsideGrid.message(), "Outside coordinate grid");
    assert_eq!(ChoiceError::UnknownAction.message(), "unknown action");
}
