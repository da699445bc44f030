//! Reading a player's command: a column, a row and what to do there, or the
//! request to show the whole board.

use vstd::prelude::*;
use vstd::string::StringSliceAdditionalSpecFns;
use crate::field::tile::Coordintes;

verus! {

/// What the player wants done.
#[derive(Clone, Copy, Debug, PartialEq, Eq, Structural)]
pub enum Action {
    /// Disclose the cell.
    Reveal,
    /// Set or remove the flag on the cell.
    Flag,
    /// Set or remove the "unknown" marker on the cell.
    Unknown,
    /// Show the board with everything uncovered.
    Cheat,
}

/// A command: what to do, and where. Positions count from zero here, while
/// the player counts columns and rows from one.
#[derive(Clone, Copy, Debug, PartialEq, Eq, Structural)]
pub struct Choice {
    pub coords: Coordintes,
    pub action: Action,
}

/// Why a command was not understood.
#[derive(Clone, Copy, Debug, PartialEq, Eq, Structural)]
pub enum ChoiceError {
    /// The command does not have five characters.
    TooShort,
    /// The second and the fourth character are not both commas.
    NotSeparated,
    /// The column or the row is not a digit.
    NotANumber,
    /// The column or the row is zero.
    OutsideGrid,
    /// The last character names no action.
    UnknownAction,
}

impl ChoiceError {
    /// The text shown to a player for this failure.
    pub fn message(&self) -> (text: &'static str)
        ensures
            text@ == match *self {
                ChoiceError::TooShort => "input too short"@,
                ChoiceError::NotSeparated => "not separated properly"@,
                ChoiceError::NotANumber => "NaN"@,
                ChoiceError::OutsideGrid => "Outside coordinate grid"@,
                ChoiceError::UnknownAction => "unknown action"@,
            },
    {
        match self {
            ChoiceError::TooShort => "input too short",
            ChoiceError::NotSeparated => "not separated properly",
            ChoiceError::NotANumber => "NaN",
            ChoiceError::OutsideGrid => "Outside coordinate grid",
            ChoiceError::UnknownAction => "unknown action",
        }
    }
}

/// The ASCII codes of the characters that commands are made of.
pub const DIGIT_ZERO: u8 = 48;

pub const DIGIT_NINE: u8 = 57;

pub const PLUS_SIGN: u8 = 43;

pub const MINUS_SIGN: u8 = 45;

pub const COMMA: u8 = 44;

pub const QUESTION_MARK: u8 = 63;

pub const LETTER_A: u8 = 97;

pub const LETTER_C: u8 = 99;

pub const LETTER_E: u8 = 101;

pub const LETTER_F: u8 = 102;

pub const LETTER_H: u8 = 104;

pub const LETTER_R: u8 = 114;

pub const LETTER_T: u8 = 116;

/// The number that a text of the single byte `byte` is read as: the digit's
/// value for a decimal digit, zero for a sign that no digit follows, and
/// nothing for any other byte.
pub open spec fn single_byte_number(byte: u8) -> Option<u8> {
    if DIGIT_ZERO <= byte <= DIGIT_NINE {
        Some((byte - DIGIT_ZERO) as u8)
    } else if byte == PLUS_SIGN || byte == MINUS_SIGN {
        Some(0u8)
    } else {
        None
    }
}

/// Calls `atoi::atoi` for `u8` on a text of the one byte `byte`. By the
/// crate's source a digit gives its value, a lone sign gives zero, since the
/// sign counts as read and no digit follows it, and any other byte gives
/// nothing. This is taken from the source, not proved.
#[verifier::external_body]
pub(crate) fn read_single_byte(byte: u8) -> (number: Option<u8>)
    ensures
        number == single_byte_number(byte),
{
    atoi::atoi::<u8>(&[byte])
}

/// The position, counted from zero, that the player's number stands for.
pub open spec fn coordinate_of(number: Option<u8>) -> Result<u8, ChoiceError> {
    match number {
        None => Err(ChoiceError::NotANumber),
        Some(n) => if n == 0 {
            Err(ChoiceError::OutsideGrid)
        } else {
            Ok((n - 1) as u8)
        },
    }
}

/// The position, counted from zero, that the player's number stands for:
/// `NotANumber` if nothing was read, `OutsideGrid` for zero, since the player
/// counts from one, and one less than the number otherwise.
pub fn coordinate_from(number: Option<u8>) -> (r: Result<u8, ChoiceError>)
    ensures
        r == coordinate_of(number),
{
    match number {
        None => Err(ChoiceError::NotANumber),
        Some(n) => {
            if n == 0 {
                Err(ChoiceError::OutsideGrid)
            } else {
                Ok(n - 1)
            }
        },
    }
}

/// The action that the byte `byte` names.
pub open spec fn action_of(byte: u8) -> Result<Action, ChoiceError> {
    if byte == QUESTION_MARK {
        Ok(Action::Unknown)
    } else if byte == LETTER_F {
        Ok(Action::Flag)
    } else if byte == LETTER_R {
        Ok(Action::Reveal)
    } else {
        Err(ChoiceError::UnknownAction)
    }
}

/// The bytes of the word that asks for the uncovered board.
pub open spec fn cheat_word() -> Seq<u8> {
    seq![LETTER_C, LETTER_H, LETTER_E, LETTER_A, LETTER_T]
}

/// The command that the bytes of a line stand for. The word `cheat` asks for
/// the uncovered board. Any other command has five bytes: the column, a
/// comma, the row, a comma, and `r`, `f` or `?` for the action. Column and
/// row are single digits counted from one. Of several faults the first in
/// this order is reported: the length, the commas, the column, the row, the
/// action.
pub open spec fn choice_of(bytes: Seq<u8>) -> Result<Choice, ChoiceError> {
    if bytes == cheat_word() {
        Ok(Choice { coords: Coordintes { x: 0, y: 0 }, action: Action::Cheat })
    } else if bytes.len() != 5 {
        Err(ChoiceError::TooShort)
    } else if bytes[1] != COMMA || bytes[3] != COMMA {
        Err(ChoiceError::NotSeparated)
    } else {
        match coordinate_of(single_byte_number(bytes[0])) {
            Err(e) => Err(e),
            Ok(x) => match coordinate_of(single_byte_number(bytes[2])) {
                Err(e) => Err(e),
                Ok(y) => match action_of(bytes[4]) {
                    Err(e) => Err(e),
                    Ok(action) => Ok(Choice { coords: Coordintes { x, y }, action }),
                },
            },
        }
    }
}

/// Reads the command in `text`, which is taken as its bytes.
pub fn parse_choice(text: &str) -> (r: Result<Choice, ChoiceError>)
    ensures
        r == choice_of(text.spec_bytes()),
{
    let bytes = text.as_bytes();
    if bytes.len() != 5 {
        assert(bytes@ != cheat_word());
        return Err(ChoiceError::TooShort);
    }
    if bytes[0] == LETTER_C && bytes[1] == LETTER_H && bytes[2] == LETTER_E && bytes[3] == LETTER_A && bytes[4]
        == LETTER_T {
        assert(bytes@ =~= cheat_word());
        return Ok(Choice { coords: Coordintes { x: 0, y: 0 }, action: Action::Cheat });
    }
    assert(bytes@ != cheat_word()) by {
        if bytes@ == cheat_word() {
            assert(cheat_word()[0] == LETTER_C && cheat_word()[1] == LETTER_H && cheat_word()[2] == LETTER_E
                && cheat_word()[3] == LETTER_A && cheat_word()[4] == LETTER_T);
        }
    }
    if bytes[1] != COMMA || bytes[3] != COMMA {
        return Err(ChoiceError::NotSeparated);
    }
    let x = match coordinate_from(read_single_byte(bytes[0])) {
        Ok(x) => x,
        Err(e) => {
            return Err(e);
        },
    };
    let y = match coordinate_from(read_single_byte(bytes[2])) {
        Ok(y) => y,
        Err(e) => {
            return Err(e);
        },
    };
    let action = if bytes[4] == QUESTION_MARK {
        Action::Unknown
    } else if bytes[4] == LETTER_F {
        Action::Flag
    } else if bytes[4] == LETTER_R {
        Action::Reveal
    } else {
        return Err(ChoiceError::UnknownAction);
    };
    Ok(Choice { coords: Coordintes { x, y }, action })
}

} // verus!
