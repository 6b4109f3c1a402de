//! The symbols of a locator: which characters may stand at which position,
//! the number each stands for, and the character written for each number.

use vstd::prelude::*;

use crate::resolution::tier_steps;

verus! {

/// Positions come in pairs, one pair to a tier. The pairs of the field, the
/// subsquare and the superextended square hold letters, those of the square
/// and the extended square hold digits.
pub open spec fn letter_position(i: int) -> bool {
    (i / 2) % 2 == 0
}

pub open spec fn is_letter(c: char) -> bool {
    'A' <= c <= 'Z' || 'a' <= c <= 'z'
}

pub open spec fn is_digit(c: char) -> bool {
    '0' <= c <= '9'
}

/// `c` belongs to the class of position `i`.
pub open spec fn fits_position(i: int, c: char) -> bool {
    if letter_position(i) {
        is_letter(c)
    } else {
        is_digit(c)
    }
}

pub open spec fn to_upper(c: char) -> char {
    if 'a' <= c <= 'z' {
        (c as int - 32) as char
    } else {
        c
    }
}

pub open spec fn to_lower(c: char) -> char {
    if 'A' <= c <= 'Z' {
        (c as int + 32) as char
    } else {
        c
    }
}

/// The character from which a symbol at position `i` is counted when a
/// locator is read: the reference locator `AA00AA00AA`.
pub open spec fn baseline(i: int) -> char {
    if letter_position(i) {
        'A'
    } else {
        '0'
    }
}

/// The number that `c` stands for at position `i`: its distance from the
/// baseline, letters taken without regard to case.
pub open spec fn symbol_value(i: int, c: char) -> int {
    to_upper(c) as int - baseline(i) as int
}

/// The character from which a symbol at position `i` is counted when a
/// locator is written: the locator `AA00aa00AA`, whose subsquare is in lower
/// case.
pub open spec fn base_symbol(i: int) -> char {
    if !letter_position(i) {
        '0'
    } else if i / 2 == 2 {
        'a'
    } else {
        'A'
    }
}

/// The character written at position `i` for the number `value`.
pub open spec fn grid_symbol(i: int, value: int) -> char {
    (base_symbol(i) as int + value) as char
}

/// `c` in the case in which position `i` is written.
pub open spec fn normal_case(i: int, c: char) -> char {
    if i / 2 == 2 {
        to_lower(c)
    } else {
        to_upper(c)
    }
}

/// A locator with each letter in the case in which the encoder writes it.
pub open spec fn normalized(s: Seq<char>) -> Seq<char> {
    Seq::new(s.len(), |i: int| normal_case(i, s[i]))
}

/// The symbols of the locator are those that the encoder can write: letters
/// A to R in the field, A to X in the subsquare and the superextended square.
pub open spec fn within_alphabet(s: Seq<char>) -> bool {
    forall|i: int| 0 <= i < s.len() ==> #[trigger] symbol_value(i, s[i]) < tier_steps(i / 2)
}

/// Whether the byte belongs to the class of position `i`.
pub(crate) fn byte_fits(i: usize, b: u8) -> (fits: bool)
    ensures
        fits == fits_position(i as int, b as char),
{
    let c: char = b as char;
    if (i / 2) % 2 == 0 {
        ('A' <= c && c <= 'Z') || ('a' <= c && c <= 'z')
    } else {
        '0' <= c && c <= '9'
    }
}

/// The number that the byte stands for at position `i`.
pub(crate) fn byte_value(i: usize, b: u8) -> (value: i64)
    requires
        fits_position(i as int, b as char),
    ensures
        value == symbol_value(i as int, b as char),
        0 <= value < 26,
{
    let c: char = b as char;
    let upper: u8 = if 'a' <= c && c <= 'z' {
        b - 32
    } else {
        b
    };
    let reference: u8 = if (i / 2) % 2 == 0 {
        'A' as u8
    } else {
        '0' as u8
    };
    (upper - reference) as i64
}

/// The symbol written at position `i` for `value`, as a string of one
/// character.
pub(crate) fn symbol(i: usize, value: i64) -> (written: &'static str)
    requires
        0 <= value < 26,
        !letter_position(i as int) ==> value < 10,
    ensures
        written@ == seq![grid_symbol(i as int, value as int)],
{
    let at: usize = value as usize;
    if (i / 2) % 2 != 0 {
        proof {
            reveal_strlit("0123456789");
        }
        "0123456789".substring_ascii(at, at + 1)
    } else if i / 2 == 2 {
        proof {
            reveal_strlit("abcdefghijklmnopqrstuvwxyz");
        }
        "abcdefghijklmnopqrstuvwxyz".substring_ascii(at, at + 1)
    } else {
        proof {
            reveal_strlit("ABCDEFGHIJKLMNOPQRSTUVWXYZ");
        }
        "ABCDEFGHIJKLMNOPQRSTUVWXYZ".substring_ascii(at, at + 1)
    }
}

/// Reading a symbol that was written gives back its number.
pub proof fn lemma_symbol_value_of_grid_symbol(i: int, value: int)
    requires
        0 <= i,
        0 <= value < 26,
        !letter_position(i) ==> value < 10,
    ensures
        fits_position(i, grid_symbol(i, value)),
        symbol_value(i, grid_symbol(i, value)) == value,
{
}

/// Writing the number of a symbol gives the symbol in its normal case.
pub proof fn lemma_grid_symbol_of_symbol_value(i: int, c: char)
    requires
        0 <= i,
        fits_position(i, c),
    ensures
        0 <= symbol_value(i, c) < 26,
        !letter_position(i) ==> symbol_value(i, c) < 10,
        grid_symbol(i, symbol_value(i, c)) == normal_case(i, c),
{
}

} // verus!
