use vstd::prelude::*;
use vstd::slice::slice_to_vec;
use vstd::string::StringSliceAdditionalSpecFns;

use crate::table::{code_exponent, code_letter, table_entry, LETTER_COUNT, LETTER_R};

verus! {

pub const DIGIT_ZERO: u8 = 48;

/// How a magnitude is written: as zero, as plain ohms with no scaling, or
/// divided by ten to `exponent` and followed by `letter`.
#[derive(Debug, Clone, Copy, PartialEq, Eq, Structural)]
pub enum Scale {
    Zero,
    Plain,
    Coded { letter: u8, exponent: i8 },
}

/// Picks the letter for a magnitude. `at_least_one(e)` tells whether the
/// magnitude divided by ten to `e` is at least one. The table is tried from
/// the largest multiplier down (T, G, M, K, R, L) and the first entry that
/// passes is taken, so that a magnitude of exactly 1000 is written 1K. A
/// zero magnitude is `Zero` without any test; where no entry passes, the
/// magnitude is written `Plain`.
pub fn classify<F: Fn(i8) -> bool>(is_zero: bool, at_least_one: F) -> (r: Scale)
    requires
        forall|e: i8| at_least_one.requires((e,)),
    ensures
        is_zero <==> r == Scale::Zero,
        r == Scale::Plain ==> forall|j: int|
            0 <= j < LETTER_COUNT ==> at_least_one.ensures((#[trigger] code_exponent(j) as i8,), false),
        match r {
            Scale::Coded { letter, exponent } => exists|k: int|
                0 <= k < LETTER_COUNT && letter == #[trigger] code_letter(k) && exponent
                    == code_exponent(k) && at_least_one.ensures((exponent,), true) && forall|j: int|
                    0 <= j < k ==> at_least_one.ensures((#[trigger] code_exponent(j) as i8,), false),
            _ => true,
        },
{
    if is_zero {
        return Scale::Zero;
    }
    let mut k: usize = 0;
    while k < LETTER_COUNT
        invariant
            k <= LETTER_COUNT,
            !is_zero,
            forall|e: i8| at_least_one.requires((e,)),
            forall|j: int| 0 <= j < k ==> at_least_one.ensures((#[trigger] code_exponent(j) as i8,), false),
        decreases LETTER_COUNT - k,
    {
        let (letter, exponent) = table_entry(k);
        if at_least_one(exponent) {
            return Scale::Coded { letter, exponent };
        }
        k += 1;
    }
    Scale::Plain
}

/// The text of a magnitude whose quotient is written `mantissa`: "0R" for
/// zero, else the mantissa followed by R for plain ohms or by the letter.
pub open spec fn rendering(mantissa: Seq<u8>, scale: Scale) -> Seq<u8> {
    match scale {
        Scale::Zero => seq![DIGIT_ZERO, LETTER_R],
        Scale::Plain => mantissa.push(LETTER_R),
        Scale::Coded { letter, .. } => mantissa.push(letter),
    }
}

/// Writes a magnitude as text, given the text of its quotient (the magnitude
/// itself for `Plain`, the magnitude divided by ten to the exponent for
/// `Coded`; it is not read for `Zero`).
pub fn render(mantissa: &str, scale: Scale) -> (r: Vec<u8>)
    ensures
        r@ == rendering(mantissa.spec_bytes(), scale),
{
    match scale {
        Scale::Zero => vec![DIGIT_ZERO, LETTER_R],
        Scale::Plain => {
            let mut out = slice_to_vec(mantissa.as_bytes());
            out.push(LETTER_R);
            out
        },
        Scale::Coded { letter, .. } => {
            let mut out = slice_to_vec(mantissa.as_bytes());
            out.push(letter);
            out
        },
    }
}

} // verus!
