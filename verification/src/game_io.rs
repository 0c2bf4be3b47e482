//! Parsing and validation of the textual player input: positions of the
//! form `<Letter><Number>` (column letter case-insensitive, row number at
//! least 1) and directions given as a single digit 1 to 8. Prompting and
//! reading lines is the surrounding binary's business; it hands the bare
//! text over and receives plain values back.

use vstd::prelude::*;

use crate::enums::{Direction, GameIOError};
use vstd::string::StrSliceExecFns;

verus! {

/// An ASCII letter, of either case.
pub open spec fn is_ascii_letter(c: char) -> bool {
    (65 <= c as int <= 90) || (97 <= c as int <= 122)
}

/// The zero-based column index a letter stands for, taking either case.
pub open spec fn letter_index(c: char) -> int {
    if c as int >= 97 {
        c as int - 97
    } else {
        c as int - 65
    }
}

/// An ASCII decimal digit.
pub open spec fn is_digit_char(c: char) -> bool {
    48 <= c as int <= 57
}

/// The number a sequence of decimal digits spells out.
pub open spec fn digits_value(s: Seq<char>) -> int
    decreases s.len(),
{
    if s.len() == 0 {
        0
    } else {
        digits_value(s.drop_last()) * 10 + (s.last() as int - 48)
    }
}

/// Ten to the `n`th power.
pub open spec fn pow10(n: nat) -> int
    decreases n,
{
    if n == 0 {
        1
    } else {
        10 * pow10((n - 1) as nat)
    }
}

/// A well-formed position input: a letter, then a number without leading
/// zero — the shape `<Letter><Number>` with the row number at least 1.
pub open spec fn valid_position_input(s: Seq<char>) -> bool {
    &&& s.len() >= 2
    &&& is_ascii_letter(s[0])
    &&& 49 <= s[1] as int <= 57
    &&& forall|j: int| 2 <= j < s.len() ==> is_digit_char(#[trigger] s[j])
}

/// A well-formed direction input: one digit between 1 and 8.
pub open spec fn valid_direction_input(s: Seq<char>) -> bool {
    s.len() == 1 && 49 <= s[0] as int <= 56
}

/// The fixed numbering of the eight directions: 1 is up, and the rest
/// follow clockwise.
pub open spec fn digit_direction(c: char) -> Direction {
    if c == '1' {
        Direction::Up
    } else if c == '2' {
        Direction::UpRight
    } else if c == '3' {
        Direction::Right
    } else if c == '4' {
        Direction::DownRight
    } else if c == '5' {
        Direction::Down
    } else if c == '6' {
        Direction::DownLeft
    } else if c == '7' {
        Direction::Left
    } else {
        Direction::UpLeft
    }
}

proof fn lemma_digits_value_bounds(s: Seq<char>)
    requires
        forall|j: int| 0 <= j < s.len() ==> is_digit_char(#[trigger] s[j]),
    ensures
        0 <= digits_value(s) < pow10(s.len()),
    decreases s.len(),
{
    if s.len() > 0 {
        assert forall|j: int| 0 <= j < s.drop_last().len() implies is_digit_char(
            #[trigger] s.drop_last()[j],
        ) by {
            assert(s.drop_last()[j] == s[j]);
        }
        lemma_digits_value_bounds(s.drop_last());
        assert(pow10(s.len()) == 10 * pow10((s.len() - 1) as nat));
    }
}

proof fn lemma_pow10_mono(a: nat, b: nat)
    requires
        a <= b,
    ensures
        pow10(a) <= pow10(b),
    decreases b,
{
    if a < b {
        lemma_pow10_mono(a, (b - 1) as nat);
        assert(pow10(b) == 10 * pow10((b - 1) as nat));
        assert(pow10((b - 1) as nat) >= 1) by {
            lemma_pow10_mono(0, (b - 1) as nat);
        }
    }
}

/// The reader of player input. Prompting lives outside the engine; these
/// functions only judge and decode the text that came in.
pub struct GameIO;

impl GameIO {
    /// Whether `input` has the right shape for a board position: a column
    /// letter of either case followed by a row number that does not start
    /// with zero (A1, b2, C12, ...).
    pub fn is_coordinates_valid(input: &String) -> (r: bool)
        ensures
            r == valid_position_input(input@),
    {
        let s = input.as_str();
        let n = s.unicode_len();
        if n < 2 {
            return false;
        }
        let c0 = s.get_char(0) as u32;
        if !((65 <= c0 && c0 <= 90) || (97 <= c0 && c0 <= 122)) {
            return false;
        }
        let c1 = s.get_char(1) as u32;
        if !(49 <= c1 && c1 <= 57) {
            return false;
        }
        let mut i: usize = 2;
        while i < n
            invariant
                2 <= i <= n,
                n == input@.len(),
                s@ == input@,
                forall|j: int| 2 <= j < i ==> is_digit_char(#[trigger] input@[j]),
            decreases n - i,
        {
            let c = s.get_char(i) as u32;
            if !(48 <= c && c <= 57) {
                return false;
            }
            i = i + 1;
        }
        true
    }

    /// Whether `input` has the right shape for a direction: one digit
    /// between 1 and 8.
    pub fn is_direction_valid(input: &String) -> (r: bool)
        ensures
            r == valid_direction_input(input@),
    {
        let s = input.as_str();
        if s.unicode_len() != 1 {
            return false;
        }
        let c = s.get_char(0) as u32;
        49 <= c && c <= 56
    }

    /// Decode a well-formed position input into a zero-based
    /// `(column, row)` pair. The input is capped at ten characters so that
    /// the row number a player can ask for always fits the machine; no
    /// board could hold a larger one anyway.
    pub fn get_position_from_input(input: &String) -> (r: (usize, usize))
        requires
            valid_position_input(input@),
            input@.len() <= 10,
        ensures
            r.0 as int == letter_index(input@[0]),
            r.1 as int == digits_value(input@.subrange(1, input@.len() as int)) - 1,
    {
        let s = input.as_str();
        let n = s.unicode_len();
        let c0 = s.get_char(0) as u32;
        let x = if c0 >= 97 {
            (c0 - 97) as usize
        } else {
            (c0 - 65) as usize
        };
        let mut val: u32 = 0;
        let mut i: usize = 1;
        proof {
            assert(input@.subrange(1, 1) =~= Seq::<char>::empty());
        }
        while i < n
            invariant
                1 <= i <= n,
                n == input@.len(),
                n <= 10,
                s@ == input@,
                valid_position_input(input@),
                val as int == digits_value(input@.subrange(1, i as int)),
                i >= 2 ==> val >= 1,
            decreases n - i,
        {
            let ghost prefix = input@.subrange(1, i as int);
            let ghost longer = input@.subrange(1, i as int + 1);
            proof {
                assert forall|j: int| 0 <= j < prefix.len() implies is_digit_char(
                    #[trigger] prefix[j],
                ) by {
                    assert(prefix[j] == input@[j + 1]);
                }
                lemma_digits_value_bounds(prefix);
                lemma_pow10_mono(prefix.len(), 8);
                assert(pow10(0) == 1);
                assert(pow10(1) == 10);
                assert(pow10(2) == 100);
                assert(pow10(3) == 1000);
                assert(pow10(4) == 10000);
                assert(pow10(5) == 100000);
                assert(pow10(6) == 1000000);
                assert(pow10(7) == 10000000);
                assert(pow10(8) == 100000000);
                assert(longer.drop_last() =~= prefix);
                assert(longer.last() == input@[i as int]);
            }
            let c = s.get_char(i) as u32;
            val = val * 10 + (c - 48);
            i = i + 1;
        }
        proof {
            assert(input@.subrange(1, n as int) == input@.subrange(1, input@.len() as int));
        }
        (x, (val - 1) as usize)
    }

    /// Decode a direction input: the digits 1 to 8 name the eight
    /// directions, 1 being up and the rest following clockwise. Anything
    /// else is rejected as an invalid direction.
    pub fn get_direction_from_input(input: &String) -> (r: Result<Direction, GameIOError>)
        ensures
            match r {
                Ok(d) => valid_direction_input(input@) && d == digit_direction(input@[0]),
                Err(GameIOError::InvalidDirection) => !valid_direction_input(input@),
            },
    {
        let s = input.as_str();
        if s.unicode_len() != 1 {
            return Err(GameIOError::InvalidDirection);
        }
        let c = s.get_char(0) as u32;
        if c == 49 {
            Ok(Direction::Up)
        } else if c == 50 {
            Ok(Direction::UpRight)
        } else if c == 51 {
            Ok(Direction::Right)
        } else if c == 52 {
            Ok(Direction::DownRight)
        } else if c == 53 {
            Ok(Direction::Down)
        } else if c == 54 {
            Ok(Direction::DownLeft)
        } else if c == 55 {
            Ok(Direction::Left)
        } else if c == 56 {
            Ok(Direction::UpLeft)
        } else {
            Err(GameIOError::InvalidDirection)
        }
    }
}

} // verus!
