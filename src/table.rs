use vstd::prelude::*;

verus! {

use crate::error::ParseError;

/// The number of multiplier letters.
pub const LETTER_COUNT: usize = 6;

pub const LETTER_T: u8 = 84;
pub const LETTER_G: u8 = 71;
pub const LETTER_M: u8 = 77;
pub const LETTER_K: u8 = 75;
pub const LETTER_R: u8 = 82;
pub const LETTER_L: u8 = 76;

/// ASCII upper-casing of one byte; every other byte is left as it is.
pub open spec fn ascii_upper(b: u8) -> u8 {
    if 97 <= b && b <= 122 {
        (b - 32) as u8
    } else {
        b
    }
}

/// ASCII lower-casing of one byte; every other byte is left as it is.
pub open spec fn ascii_lower(b: u8) -> u8 {
    if 65 <= b && b <= 90 {
        (b + 32) as u8
    } else {
        b
    }
}

/// The letter of the table's `k`-th entry. The entries are ordered from the
/// largest multiplier down: T, G, M, K, R, L.
pub open spec fn code_letter(k: int) -> u8 {
    if k == 0 {
        'T' as u8
    } else if k == 1 {
        'G' as u8
    } else if k == 2 {
        'M' as u8
    } else if k == 3 {
        'K' as u8
    } else if k == 4 {
        'R' as u8
    } else {
        'L' as u8
    }
}

/// The power of ten of the table's `k`-th entry: 12, 9, 6, 3, 0, -3.
pub open spec fn code_exponent(k: int) -> int {
    12 - 3 * k
}

/// The power of ten that a multiplier letter stands for, in either case;
/// `None` for any other byte.
pub open spec fn letter_exponent(b: u8) -> Option<int> {
    let u = ascii_upper(b);
    if u == 'L' as u8 {
        Some(-3)
    } else if u == 'R' as u8 {
        Some(0)
    } else if u == 'K' as u8 {
        Some(3)
    } else if u == 'M' as u8 {
        Some(6)
    } else if u == 'G' as u8 {
        Some(9)
    } else if u == 'T' as u8 {
        Some(12)
    } else {
        None
    }
}

/// Each entry's letter stands for that entry's power of ten, and the
/// lower-case letter stands for the same.
pub proof fn lemma_table_agrees(k: int)
    requires
        0 <= k < LETTER_COUNT,
    ensures
        letter_exponent(code_letter(k)) == Some(code_exponent(k)),
        letter_exponent(ascii_lower(code_letter(k))) == Some(code_exponent(k)),
{
}

/// The `k`-th entry of the table, as (letter, power of ten).
pub fn table_entry(k: usize) -> (r: (u8, i8))
    requires
        k < LETTER_COUNT,
    ensures
        r.0 == code_letter(k as int),
        r.1 == code_exponent(k as int),
{
    match k {
        0 => (LETTER_T, 12),
        1 => (LETTER_G, 9),
        2 => (LETTER_M, 6),
        3 => (LETTER_K, 3),
        4 => (LETTER_R, 0),
        _ => (LETTER_L, -3),
    }
}

/// The power of ten that a multiplier letter stands for: L is -3, R is 0,
/// K is 3, M is 6, G is 9 and T is 12, in upper or lower case. Any other
/// byte is refused with `UnsupportedLetterCode`, which carries it unchanged.
pub fn multiplier_exponent(letter: u8) -> (r: Result<i8, ParseError>)
    ensures
        match letter_exponent(letter) {
            Some(e) => r == Ok::<i8, ParseError>(e as i8) && e == r->Ok_0 as int,
            None => r == Err::<i8, ParseError>(ParseError::UnsupportedLetterCode(letter as char)),
        },
{
    let u = if 97 <= letter && letter <= 122 {
        letter - 32
    } else {
        letter
    };
    if u == LETTER_L {
        Ok(-3)
    } else if u == LETTER_R {
        Ok(0)
    } else if u == LETTER_K {
        Ok(3)
    } else if u == LETTER_M {
        Ok(6)
    } else if u == LETTER_G {
        Ok(9)
    } else if u == LETTER_T {
        Ok(12)
    } else {
        Err(ParseError::UnsupportedLetterCode(letter as char))
    }
}

} // verus!
